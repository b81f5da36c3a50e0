//! The challenge handler: the one request/response contract of the service.
//!
//! The incoming payload is modelled as an optional challenge text; parsing
//! the HTTP body into that shape, and everything else HTTP, stays outside
//! this library. Given the parsed payload, the handler always answers with
//! status 200: either the challenge echoed back inside a JSON object under
//! the key `challenge`, or the bare JSON string `"ok"`.

use vstd::prelude::*;

use crate::json::json_string;
use crate::json::escape_string;
use crate::json::encode_json_string;
use crate::json::lemma_escape_string_injective;

verus! {

/// The request body size limit the listener applies, in bytes. Larger
/// bodies are rejected with a client error before the handler runs.
pub const BODY_LIMIT: usize = 4096;

/// An incoming webhook payload, reduced to the one field the service reads.
///
/// `challenge` is `None` both when the field is absent and when it is null:
/// the two cases get the same answer.
pub struct SlackEvent {
    pub challenge: Option<String>,
}

impl View for SlackEvent {
    type V = Option<Seq<char>>;

    open spec fn view(&self) -> Option<Seq<char>> {
        match self.challenge {
            Some(ref v) => Some(v@),
            None => None,
        }
    }
}

/// The HTTP answer the handler settles on: a status code and a JSON body.
pub struct Response {
    pub status: u16,
    pub body: String,
}

/// The exact response body owed to a payload: the challenge echoed inside
/// a JSON object when present, the JSON string `"ok"` otherwise.
pub open spec fn response_of(challenge: Option<Seq<char>>) -> Seq<char> {
    match challenge {
        Some(v) => "{\"challenge\":"@ + json_string(v) + "}"@,
        None => "\"ok\""@,
    }
}

/// Builds the response body owed to a payload.
pub fn response_body(event: &SlackEvent) -> (r: String)
    ensures
        r@ == response_of(event@),
{
    match &event.challenge {
        Some(v) => {
            let mut out = "{\"challenge\":".to_owned();
            let lit = encode_json_string(v.as_str());
            out.append(lit.as_str());
            out.append("}");
            proof {
                assert(out@ =~= response_of(event@));
            }
            out
        },
        None => "\"ok\"".to_owned(),
    }
}

/// The response body is a faithful echo: it determines the payload exactly.
/// Two payloads with the same body carry the same challenge, an echoed
/// challenge never collides with the plain acknowledgement, and in
/// particular the body recovers the challenge value unaltered.
pub proof fn lemma_response_injective(a: Option<Seq<char>>, b: Option<Seq<char>>)
    requires
        response_of(a) == response_of(b),
    ensures
        a == b,
{
    reveal_strlit("{\"challenge\":");
    reveal_strlit("}");
    reveal_strlit("\"ok\"");
    let p = "{\"challenge\":"@;
    match (a, b) {
        (Some(va), Some(vb)) => {
            let xa = json_string(va) + "}"@;
            let xb = json_string(vb) + "}"@;
            assert(p + xa =~= response_of(a));
            assert(p + xb =~= response_of(b));
            assert(p + xa == p + xb);
            assert(xa =~= (p + xa).subrange(p.len() as int, (p + xa).len() as int));
            assert(xb =~= (p + xb).subrange(p.len() as int, (p + xb).len() as int));
            assert(xa == xb);
            let ea = escape_string(va);
            let eb = escape_string(vb);
            assert(xa.len() == ea.len() + 3);
            assert(xb.len() == eb.len() + 3);
            assert(ea =~= xa.subrange(1, xa.len() - 2));
            assert(eb =~= xb.subrange(1, xb.len() - 2));
            lemma_escape_string_injective(va, vb);
        },
        (Some(_), None) => {
            assert(response_of(a)[0] == '{');
            assert(response_of(b)[0] == '"');
            assert(false);
        },
        (None, Some(_)) => {
            assert(response_of(a)[0] == '"');
            assert(response_of(b)[0] == '{');
            assert(false);
        },
        (None, None) => {},
    }
}

/// Handles one parsed payload: always status 200, with the body that
/// `response_of` owes to the payload.
pub fn handle(event: &SlackEvent) -> (r: Response)
    ensures
        r.status == 200,
        r.body@ == response_of(event@),
{
    Response { status: 200, body: response_body(event) }
}

} // verus!
