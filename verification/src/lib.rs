//! A minimal client for CloudFlare's legacy query-string API: it builds the
//! flat parameter set for one action, serializes it into the provider's GET
//! URL, and decodes the triple-nested JSON envelope the provider answers
//! with into typed DNS records. The HTTP dispatch itself stays outside the
//! library; the JSON tokenizer is called through a few trusted wrappers, and
//! every piece of this crate's own logic carries a proved contract.

pub mod decode;
pub mod errors;
pub mod json;
pub mod params;
pub mod query;

pub use decode::Record;
pub use decode::decode_records;
pub use errors::CloudFlareErrors;
pub use params::RequestParameters;
pub use query::request_url;

use vstd::prelude::*;

verus! {

/// The operations this client can ask the provider to perform.
#[derive(Debug, Eq, PartialEq)]
pub enum Actions {
    AllRecords,
}

/// Caller credentials, plus an optional zone the query is scoped to.
#[derive(Debug, Eq, PartialEq, Clone)]
pub struct Authentication {
    pub email: String,
    pub token: String,
    pub domain: Option<String>,
}

/// The provider's string identifier for an action.
pub open spec fn spec_action_code(action: Actions) -> Seq<char> {
    match action {
        Actions::AllRecords => ("rec_load_all")@,
    }
}

/// Turns credentials and a requested action into the flat parameter set the
/// provider expects: the credential parameters plus `a`, the action's code.
pub fn payload_for_action(auth: &Authentication, action: Actions) -> (r: RequestParameters)
    ensures
        auth.domain is None ==> r@ == map![
            ("email")@ => auth.email@,
            ("tkn")@ => auth.token@,
            ("a")@ => spec_action_code(action),
        ],
        auth.domain is None ==> r.pairs_view() == seq![
            (("email")@, auth.email@),
            (("tkn")@, auth.token@),
            (("a")@, spec_action_code(action)),
        ],
        auth.domain matches Some(d) ==> r@ == map![
            ("email")@ => auth.email@,
            ("tkn")@ => auth.token@,
            ("z")@ => d@,
            ("a")@ => spec_action_code(action),
        ],
        auth.domain matches Some(d) ==> r.pairs_view() == seq![
            (("email")@, auth.email@),
            (("tkn")@, auth.token@),
            (("z")@, d@),
            (("a")@, spec_action_code(action)),
        ],
{
    let mut r = RequestParameters::from_auth(auth);
    let code: &str = match action {
        Actions::AllRecords => "rec_load_all",
    };
    r.insert("a".to_owned(), code.to_owned());
    proof {
        reveal_strlit("email");
        reveal_strlit("tkn");
        reveal_strlit("z");
        reveal_strlit("a");
        assert(("email")@.len() == 5);
        assert(("tkn")@.len() == 3);
        assert(("z")@.len() == 1);
        assert(("a")@.len() == 1);
        assert(("a")@[0] == 'a');
        assert(("z")@[0] == 'z');
        assert(("a")@ != ("z")@);
        match &auth.domain {
            None => {
                assert(r@ =~= map![
                    ("email")@ => auth.email@,
                    ("tkn")@ => auth.token@,
                    ("a")@ => spec_action_code(action),
                ]);
            }
            Some(d) => {
                assert(r@ =~= map![
                    ("email")@ => auth.email@,
                    ("tkn")@ => auth.token@,
                    ("z")@ => d@,
                    ("a")@ => spec_action_code(action),
                ]);
            }
        }
    }
    r
}

/// Interprets the outcome of one dispatched request. A transport failure is
/// surfaced as `APIError`, carrying the transport's own message, and the
/// decoder never runs; a body that arrived is decoded as the provider's
/// envelope, whatever the HTTP status was.
pub fn records_from_response(response: Result<String, String>) -> (r: Result<
    Vec<Record>,
    CloudFlareErrors,
>)
    ensures
        (match response {
            Err(e) => r == Err::<Vec<Record>, CloudFlareErrors>(CloudFlareErrors::APIError(e)),
            Ok(body) => match decode::spec_decoded(body@) {
                Some(rs) => r matches Ok(v) && decode::records_view(v@) == rs,
                None => r matches Err(er) && er matches CloudFlareErrors::ParsingError(_),
            },
        }),
{
    match response {
        Ok(body) => decode_records(body.as_str()),
        Err(e) => Err(CloudFlareErrors::APIError(e)),
    }
}

} // verus!
