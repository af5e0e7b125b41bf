//! The login routes: the form page and the submission's redirect.

use vstd::prelude::*;
use vstd::string::{StrSliceExecFns, StringExecFns, StringSliceAdditionalSpecFns};
use crate::response::{see_other, ResponseSnapshot};

verus! {

/// The query parameters of the login page: an error to show, if any.
pub struct QueryParam {
    pub error: Option<String>,
}

/// The submitted login form.
pub struct FormData {
    pub username: String,
    pub password: String,
}

/// The fragment shown above the form: empty, or the error in italics.
pub open spec fn spec_error_fragment(error: Option<Seq<char>>) -> Seq<char> {
    match error {
        None => Seq::empty(),
        Some(message) => "<p><i>"@ + message + "</i></p>"@,
    }
}

/// The login page around the error fragment.
pub open spec fn spec_login_page(error: Option<Seq<char>>) -> Seq<char> {
    "<!DOCTYPE html>\n<html lang=\"en\">\n    <head>\n        <meta http-equiv=\"content-type\" content=\"text/html; charset=utf-8\">\n            <title>Login</title>\n        </head>\n        <body>\n"@
        + spec_error_fragment(error)
        + "\n\n            <form action=\"/login\" method=\"post\">\n                <label>Username\n\n                    <input\ntype=\"text\"\nplaceholder=\"Enter Username\"\nname=\"username\"\n>\n                    </label>\n                    <label>Password\n\n                        <input\ntype=\"password\"\nplaceholder=\"Enter Password\"\nname=\"password\"\n>\n                        </label>\n                        <button type=\"submit\">Login</button>\n                    </form>\n                </body>\n            </html>"@
}

/// Renders the login page, showing the passed error message if there is one.
pub fn login_form(query: QueryParam) -> (r: String)
    ensures
        r@ == spec_login_page(
            match query.error {
                None => None,
                Some(message) => Some(message@),
            },
        ),
{
    let mut page = String::from_str(
        "<!DOCTYPE html>\n<html lang=\"en\">\n    <head>\n        <meta http-equiv=\"content-type\" content=\"text/html; charset=utf-8\">\n            <title>Login</title>\n        </head>\n        <body>\n",
    );
    match &query.error {
        None => {},
        Some(message) => {
            page.append("<p><i>");
            page.append(message.as_str());
            page.append("</i></p>");
        },
    }
    page.append(
        "\n\n            <form action=\"/login\" method=\"post\">\n                <label>Username\n\n                    <input\ntype=\"text\"\nplaceholder=\"Enter Username\"\nname=\"username\"\n>\n                    </label>\n                    <label>Password\n\n                        <input\ntype=\"password\"\nplaceholder=\"Enter Password\"\nname=\"password\"\n>\n                        </label>\n                        <button type=\"submit\">Login</button>\n                    </form>\n                </body>\n            </html>",
    );
    page
}

/// Accepts the submitted credentials and sends the browser home.
pub fn login(form: FormData) -> (r: ResponseSnapshot)
    ensures
        r@.status == 303,
        r@.headers == seq![("Location".spec_bytes(), "/".spec_bytes())],
        r@.body == Seq::<u8>::empty(),
        r.well_formed(),
{
    let FormData { username: _, password: _ } = form;
    see_other("/")
}

} // verus!
