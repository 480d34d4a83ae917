//! One authorization attempt: the request a candidate bridge is sent, and
//! the classification of the bytes it answers with.
//!
//! The request is a POST of a fixed JSON body to the candidate's well-known
//! API path; the caller performs the transport and hands the response body
//! back to `classify_response`. A reply whose first element carries a
//! `success` object yields a credential; one carrying an `error` key is the
//! expected rejection before the link button is pressed; anything else is
//! malformed. Transport failures never reach this module: the caller
//! records them as `AttemptOutcome::Unreachable` directly.

use vstd::prelude::*;

use crate::json::{bytes_eq, expect_idx, expect_tok, parse_str_body, push_all, scan_string, ws, ws_idx};
use crate::types::{AttemptOutcome, Bridge, User};

verus! {

/// `http://` — the scheme and separator of the authorization endpoint.
pub open spec fn url_open() -> Seq<u8> {
    seq![104u8, 116u8, 116u8, 112u8, 58u8, 47u8, 47u8]
}

/// `/api` — the well-known path of the authorization endpoint.
pub open spec fn url_tail() -> Seq<u8> {
    seq![47u8, 97u8, 112u8, 105u8]
}

/// The authorization endpoint of one candidate address.
pub open spec fn url_of(addr: Seq<u8>) -> Seq<u8> {
    url_open() + addr + url_tail()
}

/// `{"devicetype":"rue_pc_app"}` — the fixed pairing request body.
pub open spec fn pairing_body_bytes() -> Seq<u8> {
    seq![
        123u8, 34u8, 100u8, 101u8, 118u8, 105u8, 99u8, 101u8, 116u8, 121u8, 112u8, 101u8,
        34u8, 58u8, 34u8, 114u8, 117u8, 101u8, 95u8, 112u8, 99u8, 95u8, 97u8, 112u8, 112u8,
        34u8, 125u8,
    ]
}

/// `success` — the reply key that wraps an issued credential.
pub open spec fn key_success() -> Seq<u8> {
    seq![115u8, 117u8, 99u8, 99u8, 101u8, 115u8, 115u8]
}

/// `error` — the reply key that wraps a structured rejection.
pub open spec fn key_error() -> Seq<u8> {
    seq![101u8, 114u8, 114u8, 111u8, 114u8]
}

/// `username` — the field of the success object that holds the secret.
pub open spec fn key_username() -> Seq<u8> {
    seq![117u8, 115u8, 101u8, 114u8, 110u8, 97u8, 109u8, 101u8]
}

/// The key of the first member of the first object of a reply array:
/// `[` `{` `"key"`, whitespace allowed between tokens. Yields the key and
/// the rest after its closing quote.
pub open spec fn auth_key(s: Seq<u8>) -> Option<(Seq<u8>, Seq<u8>)> {
    match expect_tok(s, 91) {
        None => None,
        Some(r1) => match expect_tok(r1, 123) {
            None => None,
            Some(r2) => match expect_tok(r2, 34) {
                None => None,
                Some(r3) => parse_str_body(r3),
            },
        },
    }
}

/// The successful-reply grammar:
/// `[{"success":{"username":"<secret>"}}]`, whitespace allowed between
/// tokens. Yields the secret.
pub open spec fn parse_auth_success(s: Seq<u8>) -> Option<Seq<u8>> {
    match auth_key(s) {
        None => None,
        Some((k, r)) => if k != key_success() {
            None
        } else {
            match expect_tok(r, 58) {
                None => None,
                Some(r1) => match expect_tok(r1, 123) {
                    None => None,
                    Some(r2) => match expect_tok(r2, 34) {
                        None => None,
                        Some(r3) => match parse_str_body(r3) {
                            None => None,
                            Some((k2, r4)) => if k2 != key_username() {
                                None
                            } else {
                                match expect_tok(r4, 58) {
                                    None => None,
                                    Some(r5) => match expect_tok(r5, 34) {
                                        None => None,
                                        Some(r6) => match parse_str_body(r6) {
                                            None => None,
                                            Some((uname, r7)) => match expect_tok(r7, 125) {
                                                None => None,
                                                Some(r8) => match expect_tok(r8, 125) {
                                                    None => None,
                                                    Some(r9) => match expect_tok(r9, 93) {
                                                        None => None,
                                                        Some(r10) => if ws(r10).len() == 0 {
                                                            Some(uname)
                                                        } else {
                                                            None
                                                        },
                                                    },
                                                },
                                            },
                                        },
                                    },
                                }
                            },
                        },
                    },
                },
            }
        },
    }
}

/// A rejection: the first member key of the reply is `error`. The payload
/// of the rejection is not interpreted.
pub open spec fn is_auth_error(s: Seq<u8>) -> bool {
    match auth_key(s) {
        Some((k, r)) => k == key_error(),
        None => false,
    }
}

/// The reply kinds are disjoint: a reply that yields a credential is
/// never also a rejection, since one first key decides.
pub proof fn lemma_reply_kinds_disjoint(s: Seq<u8>)
    ensures
        parse_auth_success(s) is Some ==> !is_auth_error(s),
{
    if parse_auth_success(s) is Some {
        assert(key_success().len() == 7);
        assert(key_error().len() == 5);
    }
}

/// The literal `success` as bytes.
pub fn lit_success() -> (r: Vec<u8>)
    ensures
        r@ == key_success(),
{
    let mut v: Vec<u8> = Vec::new();
    v.push(115u8);
    v.push(117u8);
    v.push(99u8);
    v.push(99u8);
    v.push(101u8);
    v.push(115u8);
    v.push(115u8);
    proof {
        assert(v@ =~= key_success());
    }
    v
}

/// The literal `error` as bytes.
pub fn lit_error() -> (r: Vec<u8>)
    ensures
        r@ == key_error(),
{
    let mut v: Vec<u8> = Vec::new();
    v.push(101u8);
    v.push(114u8);
    v.push(114u8);
    v.push(111u8);
    v.push(114u8);
    proof {
        assert(v@ =~= key_error());
    }
    v
}

/// The literal `username` as bytes.
pub fn lit_username() -> (r: Vec<u8>)
    ensures
        r@ == key_username(),
{
    let mut v: Vec<u8> = Vec::new();
    v.push(117u8);
    v.push(115u8);
    v.push(101u8);
    v.push(114u8);
    v.push(110u8);
    v.push(97u8);
    v.push(109u8);
    v.push(101u8);
    proof {
        assert(v@ =~= key_username());
    }
    v
}

/// The authorization endpoint for one candidate address.
pub fn authorize_url(addr: &[u8]) -> (r: Vec<u8>)
    ensures
        r@ == url_of(addr@),
{
    let mut out: Vec<u8> = Vec::new();
    out.push(104u8);
    out.push(116u8);
    out.push(116u8);
    out.push(112u8);
    out.push(58u8);
    out.push(47u8);
    out.push(47u8);
    push_all(&mut out, addr);
    out.push(47u8);
    out.push(97u8);
    out.push(112u8);
    out.push(105u8);
    proof {
        assert(out@ =~= url_of(addr@));
    }
    out
}

/// The authorization endpoints of all candidates, one per candidate, in
/// candidate order: the round's fan-out plan.
pub fn attempt_urls(bridges: &Vec<Bridge>) -> (r: Vec<Vec<u8>>)
    ensures
        r@.len() == bridges@.len(),
        forall|i: int|
            0 <= i < r@.len() ==> r@[i]@ == url_of(bridges@[i].internalipaddress@),
{
    let mut out: Vec<Vec<u8>> = Vec::new();
    let mut i: usize = 0;
    while i < bridges.len()
        invariant
            i <= bridges@.len(),
            out@.len() == i,
            forall|m: int|
                0 <= m < i ==> out@[m]@ == url_of(bridges@[m].internalipaddress@),
        decreases bridges@.len() - i,
    {
        let url = authorize_url(bridges[i].internalipaddress.as_slice());
        out.push(url);
        i = i + 1;
    }
    out
}

/// The fixed pairing request body.
pub fn pairing_body() -> (r: Vec<u8>)
    ensures
        r@ == pairing_body_bytes(),
{
    let mut v: Vec<u8> = Vec::new();
    v.push(123u8);
    v.push(34u8);
    v.push(100u8);
    v.push(101u8);
    v.push(118u8);
    v.push(105u8);
    v.push(99u8);
    v.push(101u8);
    v.push(116u8);
    v.push(121u8);
    v.push(112u8);
    v.push(101u8);
    v.push(34u8);
    v.push(58u8);
    v.push(34u8);
    v.push(114u8);
    v.push(117u8);
    v.push(101u8);
    v.push(95u8);
    v.push(112u8);
    v.push(99u8);
    v.push(95u8);
    v.push(97u8);
    v.push(112u8);
    v.push(112u8);
    v.push(34u8);
    v.push(125u8);
    proof {
        assert(v@ =~= pairing_body_bytes());
    }
    v
}

/// Classify a reply body from the candidate at `addr`. A successful reply
/// yields the credential with that address; the error shape yields
/// `Rejected`; any other bytes are `Malformed`.
pub fn classify_response(addr: &[u8], body: &[u8]) -> (r: AttemptOutcome)
    ensures
        match r {
            AttemptOutcome::Credential(user) => parse_auth_success(body@) == Some(
                user.username@,
            ) && user.bridge_address@ == addr@,
            AttemptOutcome::Rejected => parse_auth_success(body@) is None && is_auth_error(
                body@,
            ),
            AttemptOutcome::Malformed => parse_auth_success(body@) is None && !is_auth_error(
                body@,
            ),
            AttemptOutcome::Unreachable => false,
        },
{
    proof {
        assert(body@.skip(0) =~= body@);
    }
    let j0 = match expect_idx(body, 0, 91) {
        Some(j) => j,
        None => {
            return AttemptOutcome::Malformed;
        },
    };
    let j1 = match expect_idx(body, j0, 123) {
        Some(j) => j,
        None => {
            return AttemptOutcome::Malformed;
        },
    };
    let j2 = match expect_idx(body, j1, 34) {
        Some(j) => j,
        None => {
            return AttemptOutcome::Malformed;
        },
    };
    let (key, j3) = match scan_string(body, j2) {
        Some(p) => p,
        None => {
            return AttemptOutcome::Malformed;
        },
    };
    let err = lit_error();
    if bytes_eq(key.as_slice(), err.as_slice()) {
        return AttemptOutcome::Rejected;
    }
    let succ = lit_success();
    if !bytes_eq(key.as_slice(), succ.as_slice()) {
        return AttemptOutcome::Malformed;
    }
    let j4 = match expect_idx(body, j3, 58) {
        Some(j) => j,
        None => {
            return AttemptOutcome::Malformed;
        },
    };
    let j5 = match expect_idx(body, j4, 123) {
        Some(j) => j,
        None => {
            return AttemptOutcome::Malformed;
        },
    };
    let j6 = match expect_idx(body, j5, 34) {
        Some(j) => j,
        None => {
            return AttemptOutcome::Malformed;
        },
    };
    let (key2, j7) = match scan_string(body, j6) {
        Some(p) => p,
        None => {
            return AttemptOutcome::Malformed;
        },
    };
    let uname_key = lit_username();
    if !bytes_eq(key2.as_slice(), uname_key.as_slice()) {
        return AttemptOutcome::Malformed;
    }
    let j8 = match expect_idx(body, j7, 58) {
        Some(j) => j,
        None => {
            return AttemptOutcome::Malformed;
        },
    };
    let j9 = match expect_idx(body, j8, 34) {
        Some(j) => j,
        None => {
            return AttemptOutcome::Malformed;
        },
    };
    let (uname, j10) = match scan_string(body, j9) {
        Some(p) => p,
        None => {
            return AttemptOutcome::Malformed;
        },
    };
    let j11 = match expect_idx(body, j10, 125) {
        Some(j) => j,
        None => {
            return AttemptOutcome::Malformed;
        },
    };
    let j12 = match expect_idx(body, j11, 125) {
        Some(j) => j,
        None => {
            return AttemptOutcome::Malformed;
        },
    };
    let j13 = match expect_idx(body, j12, 93) {
        Some(j) => j,
        None => {
            return AttemptOutcome::Malformed;
        },
    };
    let j14 = ws_idx(body, j13);
    if j14 < body.len() {
        return AttemptOutcome::Malformed;
    }
    let mut address: Vec<u8> = Vec::new();
    push_all(&mut address, addr);
    proof {
        assert(address@ =~= addr@);
    }
    AttemptOutcome::Credential(User { username: uname, bridge_address: address })
}

} // verus!
