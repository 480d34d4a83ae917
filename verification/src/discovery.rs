//! The two discovery strategies' verifiable halves.
//!
//! Directory lookup: the response body of the well-known discovery
//! endpoint is a JSON array of objects, each carrying an
//! `internalipaddress` string field among arbitrary other flat members.
//! `parse_discovery_response` parses it, distinguishing a malformed body
//! (`DiscoveryError::Failure`) from a well-formed empty list
//! (`DiscoveryError::NoCandidates`).
//!
//! Multicast listening: the caller turns each advertisement's records into
//! `DnsRecordKind` values; `first_usable` picks the first record of either
//! address family, and `format_ipv4` renders a v4 address as dotted
//! decimal. The caller stops listening as soon as one advertisement yields
//! a usable address.

use vstd::prelude::*;

use crate::json::{
    bytes_eq, expect_idx, expect_tok, is_plain_byte, lemma_plain_run_len,
    lemma_str_body_progress, lemma_ws_len, parse_str_body, plain_byte, plain_idx, plain_run,
    scan_string, ws, ws_idx,
};
use crate::types::{Bridge, DiscoveryError};

verus! {

/// `internalipaddress` — the field of a directory entry that holds the
/// candidate's address.
pub open spec fn addr_key() -> Seq<u8> {
    seq![
        105u8, 110u8, 116u8, 101u8, 114u8, 110u8, 97u8, 108u8, 105u8, 112u8, 97u8, 100u8,
        100u8, 114u8, 101u8, 115u8, 115u8,
    ]
}

/// The address field values of an entry list, in order.
pub open spec fn bridge_addrs(s: Seq<Bridge>) -> Seq<Seq<u8>> {
    s.map_values(|b: Bridge| b.internalipaddress@)
}

/// The string content of an optional byte vector.
pub open spec fn opt_bytes(o: Option<Vec<u8>>) -> Option<Seq<u8>> {
    match o {
        Some(v) => Some(v@),
        None => None,
    }
}

/// One object member: `"key"` `:` and a value that is either a quoted
/// string or a bare token (a number, `true`, `false`, `null`), whitespace
/// allowed between tokens. Yields the key, the value when it was a string,
/// and the rest.
pub open spec fn parse_member(s: Seq<u8>) -> Option<(Seq<u8>, Option<Seq<u8>>, Seq<u8>)> {
    match expect_tok(s, 34) {
        None => None,
        Some(r1) => match parse_str_body(r1) {
            None => None,
            Some((k, r2)) => match expect_tok(r2, 58) {
                None => None,
                Some(r3) => {
                    let t = ws(r3);
                    if t.len() > 0 && t[0] == 34 {
                        match parse_str_body(t.skip(1)) {
                            None => None,
                            Some((v, r4)) => Some((k, Some(v), r4)),
                        }
                    } else if t.len() > 0 && is_plain_byte(t[0]) {
                        Some((k, None, plain_run(t)))
                    } else {
                        None
                    }
                },
            },
        },
    }
}

pub proof fn lemma_expect_progress(s: Seq<u8>, b: u8)
    ensures
        match expect_tok(s, b) {
            Some(r) => r.len() < s.len(),
            None => true,
        },
{
    lemma_ws_len(s);
}

pub proof fn lemma_member_progress(s: Seq<u8>)
    ensures
        match parse_member(s) {
            Some((k, v, r)) => r.len() < s.len(),
            None => true,
        },
{
    lemma_expect_progress(s, 34);
    if let Some(r1) = expect_tok(s, 34) {
        lemma_str_body_progress(r1);
        if let Some((k, r2)) = parse_str_body(r1) {
            lemma_expect_progress(r2, 58);
            if let Some(r3) = expect_tok(r2, 58) {
                let t = ws(r3);
                lemma_ws_len(r3);
                if t.len() > 0 && t[0] == 34 {
                    lemma_str_body_progress(t.skip(1));
                } else if t.len() > 0 && is_plain_byte(t[0]) {
                    lemma_plain_run_len(t.skip(1));
                }
            }
        }
    }
}

/// The members of one entry object, after its opening brace: at least one
/// member, comma-separated, closed by `}`. Yields the value of the first
/// string-valued `internalipaddress` member, if any, and the rest after
/// the closing brace.
pub open spec fn parse_obj_members(s: Seq<u8>, found: Option<Seq<u8>>) -> Option<
    (Option<Seq<u8>>, Seq<u8>),
>
    decreases s.len(),
    via parse_obj_members_dec
{
    match parse_member(s) {
        None => None,
        Some((k, v, r)) => {
            let found2 = if found is None && k == addr_key() && v is Some {
                v
            } else {
                found
            };
            let t = ws(r);
            if t.len() > 0 && t[0] == 44 {
                parse_obj_members(t.skip(1), found2)
            } else if t.len() > 0 && t[0] == 125 {
                Some((found2, t.skip(1)))
            } else {
                None
            }
        },
    }
}

#[via_fn]
proof fn parse_obj_members_dec(s: Seq<u8>, found: Option<Seq<u8>>) {
    lemma_member_progress(s);
    if let Some((k, v, r)) = parse_member(s) {
        lemma_ws_len(r);
    }
}

pub proof fn lemma_obj_members_progress(s: Seq<u8>, found: Option<Seq<u8>>)
    ensures
        match parse_obj_members(s, found) {
            Some((f, r)) => r.len() < s.len(),
            None => true,
        },
    decreases s.len(),
{
    lemma_member_progress(s);
    if let Some((k, v, r)) = parse_member(s) {
        lemma_ws_len(r);
        let found2 = if found is None && k == addr_key() && v is Some {
            v
        } else {
            found
        };
        let t = ws(r);
        if t.len() > 0 && t[0] == 44 {
            lemma_obj_members_progress(t.skip(1), found2);
        }
    }
}

/// One entry object: `{` and either an immediate `}` (no members, so no
/// address) or its member list.
pub open spec fn parse_entry_obj(s: Seq<u8>) -> Option<(Option<Seq<u8>>, Seq<u8>)> {
    match expect_tok(s, 123) {
        None => None,
        Some(r) => {
            let t = ws(r);
            if t.len() > 0 && t[0] == 125 {
                Some((None, t.skip(1)))
            } else {
                parse_obj_members(r, None)
            }
        },
    }
}

pub proof fn lemma_entry_obj_progress(s: Seq<u8>)
    ensures
        match parse_entry_obj(s) {
            Some((f, r)) => r.len() < s.len(),
            None => true,
        },
{
    lemma_expect_progress(s, 123);
    if let Some(r) = expect_tok(s, 123) {
        lemma_ws_len(r);
        lemma_obj_members_progress(r, None);
    }
}

/// A non-empty, comma-separated list of entry objects closed by `]`,
/// accumulating each entry's address in order. An entry without a usable
/// address field is a decode failure.
pub open spec fn parse_entry_list(s: Seq<u8>, acc: Seq<Seq<u8>>) -> Option<
    (Seq<Seq<u8>>, Seq<u8>),
>
    decreases s.len(),
    via parse_entry_list_dec
{
    match parse_entry_obj(s) {
        None => None,
        Some((found, r)) => match found {
            None => None,
            Some(a) => {
                let t = ws(r);
                if t.len() > 0 && t[0] == 44 {
                    parse_entry_list(t.skip(1), acc.push(a))
                } else if t.len() > 0 && t[0] == 93 {
                    Some((acc.push(a), t.skip(1)))
                } else {
                    None
                }
            },
        },
    }
}

#[via_fn]
proof fn parse_entry_list_dec(s: Seq<u8>, acc: Seq<Seq<u8>>) {
    lemma_entry_obj_progress(s);
    if let Some((found, r)) = parse_entry_obj(s) {
        lemma_ws_len(r);
    }
}

/// The whole directory response: a JSON array of entry objects, possibly
/// empty, with nothing but whitespace after it. Yields the addresses in
/// entry order.
pub open spec fn parse_bridges_doc(s: Seq<u8>) -> Option<Seq<Seq<u8>>> {
    match expect_tok(s, 91) {
        None => None,
        Some(r) => {
            let t = ws(r);
            if t.len() > 0 && t[0] == 93 {
                if ws(t.skip(1)).len() == 0 {
                    Some(Seq::empty())
                } else {
                    None
                }
            } else {
                match parse_entry_list(r, Seq::empty()) {
                    None => None,
                    Some((l, rr)) => if ws(rr).len() == 0 {
                        Some(l)
                    } else {
                        None
                    },
                }
            }
        },
    }
}

/// The literal `internalipaddress` as bytes.
pub fn lit_addr_key() -> (r: Vec<u8>)
    ensures
        r@ == addr_key(),
{
    let mut v: Vec<u8> = Vec::new();
    v.push(105u8);
    v.push(110u8);
    v.push(116u8);
    v.push(101u8);
    v.push(114u8);
    v.push(110u8);
    v.push(97u8);
    v.push(108u8);
    v.push(105u8);
    v.push(112u8);
    v.push(97u8);
    v.push(100u8);
    v.push(100u8);
    v.push(114u8);
    v.push(101u8);
    v.push(115u8);
    v.push(115u8);
    proof {
        assert(v@ =~= addr_key());
    }
    v
}

/// Executable member parser; agrees with `parse_member` on the input from
/// position `i`.
pub fn parse_member_x(s: &[u8], i: usize) -> (r: Option<(Vec<u8>, Option<Vec<u8>>, usize)>)
    requires
        i <= s@.len(),
    ensures
        match r {
            Some((k, v, j)) => i < j <= s@.len() && parse_member(s@.skip(i as int)) == Some(
                (k@, opt_bytes(v), s@.skip(j as int)),
            ),
            None => parse_member(s@.skip(i as int)) is None,
        },
{
    let j0 = match expect_idx(s, i, 34) {
        Some(j) => j,
        None => {
            return None;
        },
    };
    let (k, j1) = match scan_string(s, j0) {
        Some(p) => p,
        None => {
            return None;
        },
    };
    let j2 = match expect_idx(s, j1, 58) {
        Some(j) => j,
        None => {
            return None;
        },
    };
    let t = ws_idx(s, j2);
    if t < s.len() && s[t] == 34 {
        proof {
            assert(s@.skip(t as int).skip(1) =~= s@.skip(t as int + 1));
        }
        let (v, j3) = match scan_string(s, t + 1) {
            Some(p) => p,
            None => {
                return None;
            },
        };
        Some((k, Some(v), j3))
    } else if t < s.len() && plain_byte(s[t]) {
        let j3 = plain_idx(s, t);
        proof {
            assert(s@.skip(t as int)[0] == s@[t as int]);
            assert(s@.skip(t as int).skip(1) =~= s@.skip(t as int + 1));
            lemma_plain_run_len(s@.skip(t as int + 1));
        }
        Some((k, None, j3))
    } else {
        None
    }
}

/// Executable member-list parser; agrees with `parse_obj_members` from
/// position `i` with nothing found yet.
pub fn parse_obj_members_x(s: &[u8], i: usize) -> (r: Option<(Option<Vec<u8>>, usize)>)
    requires
        i <= s@.len(),
    ensures
        match r {
            Some((f, j)) => i < j <= s@.len() && parse_obj_members(s@.skip(i as int), None)
                == Some((opt_bytes(f), s@.skip(j as int))),
            None => parse_obj_members(s@.skip(i as int), None) is None,
        },
{
    let key = lit_addr_key();
    let slen: usize = s.len();
    proof {
        assert(s@.len() == slen);
    }
    let mut found: Option<Vec<u8>> = None;
    let mut cur: usize = i;
    loop
        invariant
            i <= cur <= s@.len(),
            s@.len() <= usize::MAX,
            key@ == addr_key(),
            parse_obj_members(s@.skip(i as int), None) == parse_obj_members(
                s@.skip(cur as int),
                opt_bytes(found),
            ),
        decreases s@.len() - cur,
    {
        let (k, v, j) = match parse_member_x(s, cur) {
            Some(t) => t,
            None => {
                return None;
            },
        };
        if found.is_none() && v.is_some() && bytes_eq(k.as_slice(), key.as_slice()) {
            found = v;
        }
        let t = ws_idx(s, j);
        if t < s.len() && s[t] == 44 {
            proof {
                assert(s@.skip(t as int).skip(1) =~= s@.skip(t as int + 1));
            }
            cur = t + 1;
        } else if t < s.len() && s[t] == 125 {
            proof {
                assert(s@.skip(t as int).skip(1) =~= s@.skip(t as int + 1));
            }
            return Some((found, t + 1));
        } else {
            return None;
        }
    }
}

/// Executable entry-object parser; agrees with `parse_entry_obj` from
/// position `i`.
pub fn parse_entry_obj_x(s: &[u8], i: usize) -> (r: Option<(Option<Vec<u8>>, usize)>)
    requires
        i <= s@.len(),
    ensures
        match r {
            Some((f, j)) => i < j <= s@.len() && parse_entry_obj(s@.skip(i as int)) == Some(
                (opt_bytes(f), s@.skip(j as int)),
            ),
            None => parse_entry_obj(s@.skip(i as int)) is None,
        },
{
    let j0 = match expect_idx(s, i, 123) {
        Some(j) => j,
        None => {
            return None;
        },
    };
    let t = ws_idx(s, j0);
    if t < s.len() && s[t] == 125 {
        proof {
            assert(s@.skip(t as int).skip(1) =~= s@.skip(t as int + 1));
        }
        Some((None, t + 1))
    } else {
        parse_obj_members_x(s, j0)
    }
}

/// Parse a directory response. `Ok` carries the (non-empty) candidate
/// list; a well-formed empty list is `DiscoveryError::NoCandidates`; a
/// body outside the grammar is `DiscoveryError::Failure`.
#[verifier::rlimit(100)]
pub fn parse_discovery_response(body: &[u8]) -> (r: Result<Vec<Bridge>, DiscoveryError>)
    ensures
        match r {
            Ok(bridges) => parse_bridges_doc(body@) == Some(bridge_addrs(bridges@))
                && bridges@.len() > 0,
            Err(DiscoveryError::NoCandidates) => parse_bridges_doc(body@) == Some(
                Seq::<Seq<u8>>::empty(),
            ),
            Err(DiscoveryError::Failure) => parse_bridges_doc(body@) is None,
        },
{
    proof {
        assert(body@.skip(0) =~= body@);
    }
    let j0 = match expect_idx(body, 0, 91) {
        Some(j) => j,
        None => {
            return Err(DiscoveryError::Failure);
        },
    };
    let t0 = ws_idx(body, j0);
    if t0 < body.len() && body[t0] == 93 {
        proof {
            assert(body@.skip(t0 as int).skip(1) =~= body@.skip(t0 as int + 1));
        }
        let t1 = ws_idx(body, t0 + 1);
        if t1 == body.len() {
            return Err(DiscoveryError::NoCandidates);
        } else {
            proof {
                assert(ws(body@.skip(t0 as int + 1)).len() == body@.len() - t1);
            }
            return Err(DiscoveryError::Failure);
        }
    }
    let blen: usize = body.len();
    proof {
        assert(body@.len() == blen);
    }
    let mut out: Vec<Bridge> = Vec::new();
    let mut cur: usize = j0;
    proof {
        assert(bridge_addrs(out@) =~= Seq::<Seq<u8>>::empty());
    }
    loop
        invariant
            j0 <= cur <= body@.len(),
            body@.len() <= usize::MAX,
            parse_entry_list(body@.skip(j0 as int), Seq::empty()) == parse_entry_list(
                body@.skip(cur as int),
                bridge_addrs(out@),
            ),
            !(ws(body@.skip(j0 as int)).len() > 0 && ws(body@.skip(j0 as int))[0] == 93),
            expect_tok(body@, 91) == Some(body@.skip(j0 as int)),
        decreases body@.len() - cur,
    {
        let (f, j) = match parse_entry_obj_x(body, cur) {
            Some(p) => p,
            None => {
                return Err(DiscoveryError::Failure);
            },
        };
        let a = match f {
            Some(a) => a,
            None => {
                return Err(DiscoveryError::Failure);
            },
        };
        let t = ws_idx(body, j);
        if t < body.len() && body[t] == 44 {
            proof {
                assert(body@.skip(t as int).skip(1) =~= body@.skip(t as int + 1));
                assert(bridge_addrs(out@.push(Bridge { internalipaddress: a })) =~= bridge_addrs(
                    out@,
                ).push(a@));
            }
            out.push(Bridge { internalipaddress: a });
            cur = t + 1;
        } else if t < body.len() && body[t] == 93 {
            proof {
                assert(body@.skip(t as int).skip(1) =~= body@.skip(t as int + 1));
                assert(bridge_addrs(out@.push(Bridge { internalipaddress: a })) =~= bridge_addrs(
                    out@,
                ).push(a@));
            }
            out.push(Bridge { internalipaddress: a });
            let t1 = ws_idx(body, t + 1);
            if t1 == body.len() {
                return Ok(out);
            } else {
                proof {
                    assert(ws(body@.skip(t as int + 1)).len() == body@.len() - t1);
                }
                return Err(DiscoveryError::Failure);
            }
        } else {
            return Err(DiscoveryError::Failure);
        }
    }
}

/// One address record of a multicast advertisement, reduced to what the
/// selection logic reads: the numeric address of either family, or some
/// other record kind.
#[derive(Clone, Copy, Debug, PartialEq, Eq, Structural)]
pub enum DnsRecordKind {
    A(u8, u8, u8, u8),
    Aaaa(u16, u16, u16, u16, u16, u16, u16, u16),
    Other,
}

/// A record that yields a usable candidate address.
pub open spec fn usable_addr(r: DnsRecordKind) -> bool {
    !(r is Other)
}

/// The first record of either address family, in record order.
pub open spec fn first_usable_spec(s: Seq<DnsRecordKind>) -> Option<DnsRecordKind>
    decreases s.len(),
{
    if s.len() == 0 {
        None
    } else if usable_addr(s[0]) {
        Some(s[0])
    } else {
        first_usable_spec(s.skip(1))
    }
}

/// Pick the first usable address record of one advertisement, as the
/// multicast strategy does before it stops listening.
pub fn first_usable(records: &Vec<DnsRecordKind>) -> (r: Option<DnsRecordKind>)
    ensures
        r == first_usable_spec(records@),
{
    let mut i: usize = 0;
    proof {
        assert(records@.skip(0) =~= records@);
    }
    while i < records.len()
        invariant
            i <= records@.len(),
            first_usable_spec(records@) == first_usable_spec(records@.skip(i as int)),
        decreases records@.len() - i,
    {
        let rec = records[i];
        proof {
            assert(records@.skip(i as int)[0] == records@[i as int]);
            assert(records@.skip(i as int).skip(1) =~= records@.skip(i as int + 1));
        }
        match rec {
            DnsRecordKind::Other => {
                i = i + 1;
            },
            _ => {
                return Some(rec);
            },
        }
    }
    None
}

/// The dotted-decimal text of one address byte, without leading zeros.
pub open spec fn dec_byte(n: u8) -> Seq<u8> {
    if n < 10 {
        seq![(48 + n) as u8]
    } else if n < 100 {
        seq![(48 + n / 10) as u8, (48 + n % 10) as u8]
    } else {
        seq![(48 + n / 100) as u8, (48 + (n / 10) % 10) as u8, (48 + n % 10) as u8]
    }
}

/// The dotted-decimal text of a v4 address.
pub open spec fn ipv4_text(a: u8, b: u8, c: u8, d: u8) -> Seq<u8> {
    dec_byte(a) + seq![46u8] + dec_byte(b) + seq![46u8] + dec_byte(c) + seq![46u8] + dec_byte(d)
}

/// Append the dotted-decimal text of one address byte.
fn push_dec(out: &mut Vec<u8>, n: u8)
    ensures
        final(out)@ == old(out)@ + dec_byte(n),
{
    if n < 10 {
        out.push(48 + n);
        proof {
            assert(out@ =~= old(out)@ + dec_byte(n));
        }
    } else if n < 100 {
        out.push(48 + n / 10);
        out.push(48 + n % 10);
        proof {
            assert(out@ =~= old(out)@ + dec_byte(n));
        }
    } else {
        out.push(48 + n / 100);
        out.push(48 + (n / 10) % 10);
        out.push(48 + n % 10);
        proof {
            assert(out@ =~= old(out)@ + dec_byte(n));
        }
    }
}

/// Render a v4 address as dotted decimal.
pub fn format_ipv4(a: u8, b: u8, c: u8, d: u8) -> (r: Vec<u8>)
    ensures
        r@ == ipv4_text(a, b, c, d),
{
    let mut out: Vec<u8> = Vec::new();
    push_dec(&mut out, a);
    out.push(46u8);
    push_dec(&mut out, b);
    out.push(46u8);
    push_dec(&mut out, c);
    out.push(46u8);
    push_dec(&mut out, d);
    proof {
        assert(out@ =~= ipv4_text(a, b, c, d));
    }
    out
}

} // verus!
