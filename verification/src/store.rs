//! The persisted form of a credential and the configuration paths it is
//! stored under.
//!
//! A credential is saved as a single compact JSON object with exactly the
//! two fields `username` and `bridge_address`, in that order. `encode_user`
//! produces that form and `parse_user` reads it back; the round-trip law
//! `lemma_user_round_trip` proves that no field is lost.

use vstd::prelude::*;

use crate::json::{
    begins_with, esc, esc_byte, lemma_esc_append, lemma_parse_esc, lemma_parse_esc_inverse,
    match_lit, parse_str_body,
    push_all, scan_string,
};
use crate::types::User;

verus! {

/// The opening of the persisted object: `{"username":"`.
pub open spec fn user_open() -> Seq<u8> {
    seq![
        123u8, 34u8, 117u8, 115u8, 101u8, 114u8, 110u8, 97u8, 109u8, 101u8, 34u8, 58u8, 34u8,
    ]
}

/// Between the two fields: `,"bridge_address":"` (the quote closing the
/// first field stands just before it).
pub open spec fn user_mid() -> Seq<u8> {
    seq![
        44u8, 34u8, 98u8, 114u8, 105u8, 100u8, 103u8, 101u8, 95u8, 97u8, 100u8, 100u8, 114u8, 101u8,
        115u8, 115u8, 34u8, 58u8, 34u8,
    ]
}

/// After the closing quote of the second field: `}`.
pub open spec fn user_end() -> Seq<u8> {
    seq![125u8]
}

/// The persisted form of a credential with secret `u` issued by the bridge
/// at address `a`.
pub open spec fn user_json(u: Seq<u8>, a: Seq<u8>) -> Seq<u8> {
    user_open() + esc(u) + seq![34u8] + user_mid() + esc(a) + seq![34u8] + user_end()
}

/// The persisted-form grammar: exactly one object with the two expected
/// fields in order, no surrounding whitespace, nothing after it.
pub open spec fn parse_user_doc(s: Seq<u8>) -> Option<(Seq<u8>, Seq<u8>)> {
    if !begins_with(s, user_open()) {
        None
    } else {
        match parse_str_body(s.skip(user_open().len() as int)) {
            None => None,
            Some((u, r1)) => if !begins_with(r1, user_mid()) {
                None
            } else {
                match parse_str_body(r1.skip(user_mid().len() as int)) {
                    None => None,
                    Some((a, r2)) => if r2 == user_end() {
                        Some((u, a))
                    } else {
                        None
                    },
                }
            },
        }
    }
}

/// Round trip through the persisted form loses no field: reading back what
/// was written yields exactly the original secret and address, for every
/// pair of byte strings.
pub proof fn lemma_user_round_trip(u: Seq<u8>, a: Seq<u8>)
    ensures
        parse_user_doc(user_json(u, a)) == Some((u, a)),
{
    let s = user_json(u, a);
    let rest1 = user_mid() + esc(a) + seq![34u8] + user_end();
    assert(s.take(user_open().len() as int) =~= user_open());
    assert(s.skip(user_open().len() as int) =~= esc(u) + seq![34u8] + rest1);
    lemma_parse_esc(u, rest1);
    assert(rest1.take(user_mid().len() as int) =~= user_mid());
    assert(rest1.skip(user_mid().len() as int) =~= esc(a) + seq![34u8] + user_end());
    lemma_parse_esc(a, user_end());
}

/// The persisted form is canonical: any bytes that parse as a credential
/// are exactly the encoder's output for it, so loading and saving again
/// rewrites the file unchanged.
pub proof fn lemma_user_parse_canonical(s: Seq<u8>)
    ensures
        match parse_user_doc(s) {
            Some((u, a)) => s == user_json(u, a),
            None => true,
        },
{
    if parse_user_doc(s) is Some {
        let olen = user_open().len() as int;
        let mlen = user_mid().len() as int;
        lemma_parse_esc_inverse(s.skip(olen));
        if let Some((u, r1)) = parse_str_body(s.skip(olen)) {
            lemma_parse_esc_inverse(r1.skip(mlen));
            if let Some((a, r2)) = parse_str_body(r1.skip(mlen)) {
                assert(s =~= s.take(olen) + s.skip(olen));
                assert(r1 =~= r1.take(mlen) + r1.skip(mlen));
                assert(user_json(u, a) =~= s);
            }
        }
    }
}

/// Append `data` to `out` in its escaped in-string form.
pub fn push_escaped(out: &mut Vec<u8>, data: &[u8])
    ensures
        final(out)@ == old(out)@ + esc(data@),
{
    let mut i: usize = 0;
    proof {
        assert(esc(data@.take(0)) =~= Seq::<u8>::empty());
        assert(out@ + esc(data@.take(0)) =~= out@);
    }
    while i < data.len()
        invariant
            i <= data@.len(),
            out@ == old(out)@ + esc(data@.take(i as int)),
        decreases data@.len() - i,
    {
        let b = data[i];
        proof {
            lemma_esc_append(data@.take(i as int), seq![b]);
            assert(data@.take(i as int) + seq![b] =~= data@.take(i as int + 1));
            assert(seq![b].skip(1) =~= Seq::<u8>::empty());
            assert(esc(Seq::<u8>::empty()) =~= Seq::<u8>::empty());
            assert(esc(seq![b]) == esc_byte(b) + esc(Seq::<u8>::empty()));
            assert(esc(seq![b]) =~= esc_byte(b));
        }
        if b == 34 || b == 92 {
            out.push(92);
            out.push(b);
            proof {
                assert(out@ =~= old(out)@ + esc(data@.take(i as int + 1)));
            }
        } else {
            out.push(b);
            proof {
                assert(out@ =~= old(out)@ + esc(data@.take(i as int + 1)));
            }
        }
        i = i + 1;
    }
    proof {
        assert(data@.take(data@.len() as int) =~= data@);
    }
}

/// The literal `{"username":"` as bytes.
pub fn lit_user_open() -> (r: Vec<u8>)
    ensures
        r@ == user_open(),
{
    let mut v: Vec<u8> = Vec::new();
    v.push(123u8);
    v.push(34u8);
    v.push(117u8);
    v.push(115u8);
    v.push(101u8);
    v.push(114u8);
    v.push(110u8);
    v.push(97u8);
    v.push(109u8);
    v.push(101u8);
    v.push(34u8);
    v.push(58u8);
    v.push(34u8);
    proof {
        assert(v@ =~= user_open());
    }
    v
}

/// The literal `,"bridge_address":"` as bytes.
pub fn lit_user_mid() -> (r: Vec<u8>)
    ensures
        r@ == user_mid(),
{
    let mut v: Vec<u8> = Vec::new();
    v.push(44u8);
    v.push(34u8);
    v.push(98u8);
    v.push(114u8);
    v.push(105u8);
    v.push(100u8);
    v.push(103u8);
    v.push(101u8);
    v.push(95u8);
    v.push(97u8);
    v.push(100u8);
    v.push(100u8);
    v.push(114u8);
    v.push(101u8);
    v.push(115u8);
    v.push(115u8);
    v.push(34u8);
    v.push(58u8);
    v.push(34u8);
    proof {
        assert(v@ =~= user_mid());
    }
    v
}

/// Write a credential in its persisted form.
pub fn encode_user(user: &User) -> (r: Vec<u8>)
    ensures
        r@ == user_json(user.username@, user.bridge_address@),
{
    let mut out: Vec<u8> = Vec::new();
    let mut open = lit_user_open();
    out.append(&mut open);
    push_escaped(&mut out, user.username.as_slice());
    out.push(34);
    let mut mid = lit_user_mid();
    out.append(&mut mid);
    push_escaped(&mut out, user.bridge_address.as_slice());
    out.push(34);
    out.push(125u8);
    proof {
        assert(out@ =~= user_json(user.username@, user.bridge_address@));
    }
    out
}

/// Read a credential back from its persisted form. Returns `None` exactly
/// when the bytes are not a well-formed persisted credential.
pub fn parse_user(s: &[u8]) -> (r: Option<User>)
    ensures
        match r {
            Some(user) => parse_user_doc(s@) == Some((user.username@, user.bridge_address@)),
            None => parse_user_doc(s@) is None,
        },
{
    proof {
        assert(s@.skip(0) =~= s@);
    }
    let open = lit_user_open();
    let j0 = match match_lit(s, 0, open.as_slice()) {
        Some(j) => j,
        None => {
            return None;
        },
    };
    let (uname, j1) = match scan_string(s, j0) {
        Some(p) => p,
        None => {
            return None;
        },
    };
    let mid = lit_user_mid();
    let j2 = match match_lit(s, j1, mid.as_slice()) {
        Some(j) => j,
        None => {
            return None;
        },
    };
    proof {
        assert(s@.skip(j1 as int).skip(user_mid().len() as int) =~= s@.skip(j2 as int));
    }
    let (addr, j3) = match scan_string(s, j2) {
        Some(p) => p,
        None => {
            return None;
        },
    };
    if s.len() - j3 == 1 && s[j3] == 125u8 {
        proof {
            assert(s@.skip(j3 as int) =~= user_end());
        }
        Some(User { username: uname, bridge_address: addr })
    } else {
        proof {
            if s@.skip(j3 as int).len() == user_end().len() {
                assert(s@.skip(j3 as int)[0] != user_end()[0]);
            }
        }
        None
    }
}

/// The path of the configuration directory under a home directory:
/// `/.config/rue` appended to it.
pub open spec fn config_dir_tail() -> Seq<u8> {
    seq![
        47u8, 46u8, 99u8, 111u8, 110u8, 102u8, 105u8, 103u8, 47u8, 114u8, 117u8, 101u8,
    ]
}

/// The name of the credential file inside the configuration directory:
/// `/rue.json` appended to it.
pub open spec fn config_file_tail() -> Seq<u8> {
    seq![47u8, 114u8, 117u8, 101u8, 46u8, 106u8, 115u8, 111u8, 110u8]
}

/// The configuration directory for a given home directory.
pub fn config_dir_path(home: &[u8]) -> (r: Vec<u8>)
    ensures
        r@ == home@ + config_dir_tail(),
{
    let mut out: Vec<u8> = Vec::new();
    push_all(&mut out, home);
    out.push(47u8);
    out.push(46u8);
    out.push(99u8);
    out.push(111u8);
    out.push(110u8);
    out.push(102u8);
    out.push(105u8);
    out.push(103u8);
    out.push(47u8);
    out.push(114u8);
    out.push(117u8);
    out.push(101u8);
    proof {
        assert(out@ =~= home@ + config_dir_tail());
    }
    out
}

/// The credential file path for a given home directory.
pub fn config_file_path(home: &[u8]) -> (r: Vec<u8>)
    ensures
        r@ == home@ + config_dir_tail() + config_file_tail(),
{
    let mut out = config_dir_path(home);
    out.push(47u8);
    out.push(114u8);
    out.push(117u8);
    out.push(101u8);
    out.push(46u8);
    out.push(106u8);
    out.push(115u8);
    out.push(111u8);
    out.push(110u8);
    proof {
        assert(out@ =~= home@ + config_dir_tail() + config_file_tail());
    }
    out
}

} // verus!
