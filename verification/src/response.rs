//! Byte-exact snapshots of HTTP responses.
//!
//! A snapshot captures a response as plain data — status code, ordered header
//! pairs, body bytes — so a completed submission can be replayed verbatim to
//! every duplicate submission.

use vstd::prelude::*;
use vstd::slice::slice_to_vec;
use vstd::string::StringSliceAdditionalSpecFns;

verus! {

/// Mathematical model of one header: name bytes and value bytes.
pub type HeaderModel = (Seq<u8>, Seq<u8>);

/// Mathematical model of a response snapshot.
pub struct SnapshotModel {
    pub status: u16,
    pub headers: Seq<HeaderModel>,
    pub body: Seq<u8>,
}

/// Status codes accepted in a snapshot: the registered HTTP classes.
pub open spec fn valid_status(status: u16) -> bool {
    100 <= status < 600
}

/// A snapshot model the store accepts: a valid status code, and sizes small
/// enough that every length fits the fixed-width fields of the storage codec.
pub open spec fn wf_model(m: SnapshotModel) -> bool {
    &&& valid_status(m.status)
    &&& m.headers.len() < 0x1_0000_0000_0000_0000
    &&& m.body.len() < 0x1_0000_0000_0000_0000
    &&& forall|i: int|
        0 <= i < m.headers.len() ==> (#[trigger] m.headers[i]).0.len() < 0x1_0000_0000_0000_0000
            && m.headers[i].1.len() < 0x1_0000_0000_0000_0000
}

/// One response header: name bytes and value bytes, kept in order.
#[derive(Debug, Clone, PartialEq, Eq)]
pub struct HeaderPair {
    pub name: Vec<u8>,
    pub value: Vec<u8>,
}

impl View for HeaderPair {
    type V = HeaderModel;

    open spec fn view(&self) -> HeaderModel {
        (self.name@, self.value@)
    }
}

/// A serializable capture of an HTTP response: numeric status code, ordered
/// list of header pairs, raw body bytes. Suitable for byte-exact replay.
#[derive(Debug, Clone, PartialEq, Eq)]
pub struct ResponseSnapshot {
    pub status_code: u16,
    pub headers: Vec<HeaderPair>,
    pub body: Vec<u8>,
}

impl View for ResponseSnapshot {
    type V = SnapshotModel;

    open spec fn view(&self) -> SnapshotModel {
        SnapshotModel {
            status: self.status_code,
            headers: Seq::new(self.headers@.len(), |i: int| self.headers@[i]@),
            body: self.body@,
        }
    }
}

impl ResponseSnapshot {
    pub open spec fn well_formed(&self) -> bool {
        wf_model(self@)
    }

    /// An empty-bodied response with the given status code and no headers.
    pub fn with_status(status_code: u16) -> (r: ResponseSnapshot)
        requires
            valid_status(status_code),
        ensures
            r@.status == status_code,
            r@.headers == Seq::<HeaderModel>::empty(),
            r@.body == Seq::<u8>::empty(),
            r.well_formed(),
    {
        let r = ResponseSnapshot { status_code, headers: Vec::new(), body: Vec::new() };
        proof {
            assert(r@.headers =~= Seq::<HeaderModel>::empty());
        }
        r
    }

    /// Appends one header pair, keeping the existing order.
    pub fn insert_header(&mut self, name: &str, value: &str)
        requires
            old(self).well_formed(),
        ensures
            final(self).well_formed(),
            final(self)@.status == old(self)@.status,
            final(self)@.body == old(self)@.body,
            final(self)@.headers == old(self)@.headers.push(
                (name.spec_bytes(), value.spec_bytes()),
            ),
    {
        let name_bytes = slice_to_vec(name.as_bytes());
        let value_bytes = slice_to_vec(value.as_bytes());
        let name_len = name_bytes.len();
        let value_len = value_bytes.len();
        self.headers.push(HeaderPair { name: name_bytes, value: value_bytes });
        let header_count = self.headers.len();
        proof {
            assert(self@.headers =~= old(self)@.headers.push(
                (name.spec_bytes(), value.spec_bytes()),
            ));
            assert(self@.headers.len() == header_count);
            assert forall|i: int| 0 <= i < self@.headers.len() implies (
                #[trigger] self@.headers[i]).0.len() < 0x1_0000_0000_0000_0000
                && self@.headers[i].1.len() < 0x1_0000_0000_0000_0000 by {
                if i < old(self)@.headers.len() {
                    assert(old(self)@.headers[i] == self@.headers[i]);
                } else {
                    assert(self@.headers[i].0.len() == name_len);
                    assert(self@.headers[i].1.len() == value_len);
                }
            }
        }
    }

    /// Replaces the body bytes.
    pub fn set_body(&mut self, body: Vec<u8>)
        requires
            old(self).well_formed(),
            body@.len() < 0x1_0000_0000_0000_0000,
        ensures
            final(self).well_formed(),
            final(self)@.status == old(self)@.status,
            final(self)@.headers == old(self)@.headers,
            final(self)@.body == body@,
    {
        self.body = body;
    }
}

/// The redirect the route handlers answer with: status 303 and a single
/// `Location` header naming the target.
pub fn see_other(location: &str) -> (r: ResponseSnapshot)
    ensures
        r@.status == 303,
        r@.headers == seq![("Location".spec_bytes(), location.spec_bytes())],
        r@.body == Seq::<u8>::empty(),
        r.well_formed(),
{
    let mut r = ResponseSnapshot::with_status(303);
    r.insert_header("Location", location);
    proof {
        assert(r@.headers =~= seq![("Location".spec_bytes(), location.spec_bytes())]);
    }
    r
}

} // verus!
