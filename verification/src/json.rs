//! Byte-level primitives for the small JSON shapes the pairing protocol
//! exchanges: whitespace, quoted strings with escaping, bare literal
//! tokens, and prefix matching.
//!
//! The specification functions consume a byte sequence from the front and
//! return the unconsumed rest; the executable functions walk a slice with
//! an index and are proved to agree with them.

use vstd::prelude::*;

verus! {

/// JSON whitespace.
pub open spec fn is_ws_byte(b: u8) -> bool {
    b == 32 || b == 9 || b == 10 || b == 13
}

/// The rest of `s` after its leading whitespace.
pub open spec fn ws(s: Seq<u8>) -> Seq<u8>
    decreases s.len(),
{
    if s.len() > 0 && is_ws_byte(s[0]) {
        ws(s.skip(1))
    } else {
        s
    }
}

/// How one byte appears inside a quoted JSON string: quote and backslash
/// are escaped, every other byte stands for itself.
pub open spec fn esc_byte(b: u8) -> Seq<u8> {
    if b == 34 || b == 92 {
        seq![92u8, b]
    } else {
        seq![b]
    }
}

/// How a whole byte string appears inside a quoted JSON string.
pub open spec fn esc(s: Seq<u8>) -> Seq<u8>
    decreases s.len(),
{
    if s.len() == 0 {
        Seq::empty()
    } else {
        esc_byte(s[0]) + esc(s.skip(1))
    }
}

/// Parse the body of a quoted string, starting just after the opening
/// quote. On success, yields the unescaped content and the rest of the
/// input after the closing quote. Only the escapes `\"` and `\\` are
/// recognized; a lone backslash or a missing closing quote fails.
pub open spec fn parse_str_body(s: Seq<u8>) -> Option<(Seq<u8>, Seq<u8>)>
    decreases s.len(),
{
    if s.len() == 0 {
        None
    } else if s[0] == 34 {
        Some((Seq::empty(), s.skip(1)))
    } else if s[0] == 92 {
        if s.len() >= 2 && (s[1] == 34 || s[1] == 92) {
            match parse_str_body(s.skip(2)) {
                Some((c, r)) => Some((seq![s[1]] + c, r)),
                None => None,
            }
        } else {
            None
        }
    } else {
        match parse_str_body(s.skip(1)) {
            Some((c, r)) => Some((seq![s[0]] + c, r)),
            None => None,
        }
    }
}

/// `p` is a prefix of `s`.
pub open spec fn begins_with(s: Seq<u8>, p: Seq<u8>) -> bool {
    s.len() >= p.len() && s.take(p.len() as int) == p
}

/// A byte that may stand in a bare (unquoted) JSON token such as a number
/// or `true`: anything but whitespace and JSON punctuation.
pub open spec fn is_plain_byte(b: u8) -> bool {
    !is_ws_byte(b) && b != 34 && b != 44 && b != 58 && b != 91 && b != 93 && b != 123
        && b != 125
}

/// The rest of `s` after a maximal run of bare-token bytes.
pub open spec fn plain_run(s: Seq<u8>) -> Seq<u8>
    decreases s.len(),
{
    if s.len() > 0 && is_plain_byte(s[0]) {
        plain_run(s.skip(1))
    } else {
        s
    }
}

/// Prepend `p` to the content of a successful string parse.
pub open spec fn opt_prepend(p: Seq<u8>, o: Option<(Seq<u8>, Seq<u8>)>) -> Option<
    (Seq<u8>, Seq<u8>),
> {
    match o {
        Some((c, r)) => Some((p + c, r)),
        None => None,
    }
}

pub proof fn lemma_ws_len(s: Seq<u8>)
    ensures
        ws(s).len() <= s.len(),
    decreases s.len(),
{
    if s.len() > 0 && is_ws_byte(s[0]) {
        lemma_ws_len(s.skip(1));
    }
}

pub proof fn lemma_plain_run_len(s: Seq<u8>)
    ensures
        plain_run(s).len() <= s.len(),
    decreases s.len(),
{
    if s.len() > 0 && is_plain_byte(s[0]) {
        lemma_plain_run_len(s.skip(1));
    }
}

pub proof fn lemma_str_body_progress(s: Seq<u8>)
    ensures
        match parse_str_body(s) {
            Some((c, r)) => r.len() < s.len(),
            None => true,
        },
    decreases s.len(),
{
    if s.len() == 0 {
    } else if s[0] == 34 {
    } else if s[0] == 92 {
        if s.len() >= 2 && (s[1] == 34 || s[1] == 92) {
            lemma_str_body_progress(s.skip(2));
        }
    } else {
        lemma_str_body_progress(s.skip(1));
    }
}

/// Escaping distributes over concatenation.
pub proof fn lemma_esc_append(a: Seq<u8>, b: Seq<u8>)
    ensures
        esc(a + b) == esc(a) + esc(b),
    decreases a.len(),
{
    if a.len() == 0 {
        assert(a + b =~= b);
        assert(esc(a) + esc(b) =~= esc(b));
    } else {
        lemma_esc_append(a.skip(1), b);
        assert((a + b).skip(1) =~= a.skip(1) + b);
        assert((a + b)[0] == a[0]);
        assert(esc_byte(a[0]) + (esc(a.skip(1)) + esc(b)) =~= (esc_byte(a[0]) + esc(a.skip(1)))
            + esc(b));
        assert(esc(a) =~= esc_byte(a[0]) + esc(a.skip(1)));
    }
}

/// Parsing undoes escaping: an escaped body followed by the closing quote
/// and arbitrary further input parses to exactly the original content.
pub proof fn lemma_parse_esc(c: Seq<u8>, rest: Seq<u8>)
    ensures
        parse_str_body(esc(c) + seq![34u8] + rest) == Some((c, rest)),
    decreases c.len(),
{
    if c.len() == 0 {
        let s = esc(c) + seq![34u8] + rest;
        assert(s =~= seq![34u8] + rest);
        assert(s[0] == 34);
        assert(s.skip(1) =~= rest);
    } else {
        lemma_parse_esc(c.skip(1), rest);
        let s = esc(c) + seq![34u8] + rest;
        let s1 = esc(c.skip(1)) + seq![34u8] + rest;
        assert(esc(c) =~= esc_byte(c[0]) + esc(c.skip(1)));
        if c[0] == 34 || c[0] == 92 {
            assert(s =~= seq![92u8, c[0]] + s1);
            assert(s[0] == 92);
            assert(s.len() >= 2);
            assert(s[1] == c[0]);
            assert(s.skip(2) =~= s1);
            assert(seq![c[0]] + c.skip(1) =~= c);
        } else {
            assert(s =~= seq![c[0]] + s1);
            assert(s[0] == c[0]);
            assert(s.skip(1) =~= s1);
            assert(seq![c[0]] + c.skip(1) =~= c);
        }
    }
}

/// Escaping is the only way into a successful parse: input that parses as
/// a string body is exactly the escaped form of its content, followed by
/// the closing quote and the rest.
pub proof fn lemma_parse_esc_inverse(s: Seq<u8>)
    ensures
        match parse_str_body(s) {
            Some((c, r)) => s == esc(c) + seq![34u8] + r,
            None => true,
        },
    decreases s.len(),
{
    if s.len() == 0 {
    } else if s[0] == 34 {
        if let Some((c, r)) = parse_str_body(s) {
            assert(esc(c) =~= Seq::<u8>::empty());
            assert(esc(c) + seq![34u8] + r =~= s);
        }
    } else if s[0] == 92 {
        if s.len() >= 2 && (s[1] == 34 || s[1] == 92) {
            lemma_parse_esc_inverse(s.skip(2));
            if let Some((c2, r)) = parse_str_body(s.skip(2)) {
                let c = seq![s[1]] + c2;
                assert(c[0] == s[1]);
                assert(c.skip(1) =~= c2);
                assert(esc(c) == esc_byte(c[0]) + esc(c2));
                assert(s =~= seq![s[0], s[1]] + s.skip(2));
                assert(esc(c) + seq![34u8] + r =~= s);
            }
        }
    } else {
        lemma_parse_esc_inverse(s.skip(1));
        if let Some((c2, r)) = parse_str_body(s.skip(1)) {
            let c = seq![s[0]] + c2;
            assert(c[0] == s[0]);
            assert(c.skip(1) =~= c2);
            assert(esc(c) == esc_byte(c[0]) + esc(c2));
            assert(s =~= seq![s[0]] + s.skip(1));
            assert(esc(c) + seq![34u8] + r =~= s);
        }
    }
}

/// Executable test for JSON whitespace.
pub fn ws_byte(b: u8) -> (r: bool)
    ensures
        r == is_ws_byte(b),
{
    b == 32 || b == 9 || b == 10 || b == 13
}

/// Executable test for bare-token bytes.
pub fn plain_byte(b: u8) -> (r: bool)
    ensures
        r == is_plain_byte(b),
{
    !ws_byte(b) && b != 34 && b != 44 && b != 58 && b != 91 && b != 93 && b != 123 && b != 125
}

/// Advance `i` past leading whitespace.
pub fn ws_idx(s: &[u8], i: usize) -> (j: usize)
    requires
        i <= s@.len(),
    ensures
        i <= j <= s@.len(),
        ws(s@.skip(i as int)) == s@.skip(j as int),
{
    let mut j: usize = i;
    while j < s.len() && ws_byte(s[j])
        invariant
            i <= j <= s@.len(),
            ws(s@.skip(i as int)) == ws(s@.skip(j as int)),
        decreases s@.len() - j,
    {
        assert(s@.skip(j as int).skip(1) =~= s@.skip(j as int + 1));
        j = j + 1;
    }
    j
}

/// Advance `i` past a maximal run of bare-token bytes.
pub fn plain_idx(s: &[u8], i: usize) -> (j: usize)
    requires
        i <= s@.len(),
    ensures
        i <= j <= s@.len(),
        plain_run(s@.skip(i as int)) == s@.skip(j as int),
{
    let mut j: usize = i;
    while j < s.len() && plain_byte(s[j])
        invariant
            i <= j <= s@.len(),
            plain_run(s@.skip(i as int)) == plain_run(s@.skip(j as int)),
        decreases s@.len() - j,
    {
        assert(s@.skip(j as int).skip(1) =~= s@.skip(j as int + 1));
        j = j + 1;
    }
    j
}

/// Scan a quoted string body starting at `i` (just after the opening
/// quote), unescaping its content.
pub fn scan_string(s: &[u8], i: usize) -> (r: Option<(Vec<u8>, usize)>)
    requires
        i <= s@.len(),
    ensures
        match r {
            Some((v, j)) => i < j <= s@.len() && parse_str_body(s@.skip(i as int)) == Some(
                (v@, s@.skip(j as int)),
            ),
            None => parse_str_body(s@.skip(i as int)) is None,
        },
{
    let mut acc: Vec<u8> = Vec::new();
    let mut j: usize = i;
    proof {
        if let Some((c, r)) = parse_str_body(s@.skip(i as int)) {
            assert(Seq::<u8>::empty() + c =~= c);
        }
    }
    loop
        invariant
            i <= j <= s@.len(),
            parse_str_body(s@.skip(i as int)) == opt_prepend(
                acc@,
                parse_str_body(s@.skip(j as int)),
            ),
        decreases s@.len() - j,
    {
        if j >= s.len() {
            return None;
        }
        let b = s[j];
        if b == 34 {
            proof {
                assert(s@.skip(j as int).skip(1) =~= s@.skip(j as int + 1));
                assert(acc@ + Seq::<u8>::empty() =~= acc@);
            }
            return Some((acc, j + 1));
        } else if b == 92 {
            if j + 1 >= s.len() {
                return None;
            }
            let b2 = s[j + 1];
            if b2 == 34 || b2 == 92 {
                proof {
                    assert(s@.skip(j as int).skip(2) =~= s@.skip(j as int + 2));
                    if let Some((c, r)) = parse_str_body(s@.skip(j as int + 2)) {
                        assert(acc@ + (seq![b2] + c) =~= acc@.push(b2) + c);
                    }
                }
                acc.push(b2);
                j = j + 2;
            } else {
                return None;
            }
        } else {
            proof {
                assert(s@.skip(j as int).skip(1) =~= s@.skip(j as int + 1));
                if let Some((c, r)) = parse_str_body(s@.skip(j as int + 1)) {
                    assert(acc@ + (seq![b] + c) =~= acc@.push(b) + c);
                }
            }
            acc.push(b);
            j = j + 1;
        }
    }
}

/// Skip whitespace, then demand the byte `b`; the rest follows it.
pub open spec fn expect_tok(s: Seq<u8>, b: u8) -> Option<Seq<u8>> {
    let t = ws(s);
    if t.len() > 0 && t[0] == b {
        Some(t.skip(1))
    } else {
        None
    }
}

/// Skip whitespace at `i`, then demand the byte `b`.
pub fn expect_idx(s: &[u8], i: usize, b: u8) -> (r: Option<usize>)
    requires
        i <= s@.len(),
    ensures
        match r {
            Some(j) => i < j <= s@.len() && expect_tok(s@.skip(i as int), b) == Some(
                s@.skip(j as int),
            ),
            None => expect_tok(s@.skip(i as int), b) is None,
        },
{
    let j = ws_idx(s, i);
    if j < s.len() && s[j] == b {
        proof {
            assert(s@.skip(j as int).skip(1) =~= s@.skip(j as int + 1));
        }
        Some(j + 1)
    } else {
        None
    }
}

/// Append every byte of `data` to `out`.
pub fn push_all(out: &mut Vec<u8>, data: &[u8])
    ensures
        final(out)@ == old(out)@ + data@,
{
    let mut i: usize = 0;
    while i < data.len()
        invariant
            i <= data@.len(),
            out@ == old(out)@ + data@.take(i as int),
        decreases data@.len() - i,
    {
        let b = data[i];
        proof {
            assert(data@.take(i as int).push(b) =~= data@.take(i as int + 1));
            assert((old(out)@ + data@.take(i as int)).push(b) =~= old(out)@ + data@.take(
                i as int,
            ).push(b));
        }
        out.push(b);
        i = i + 1;
    }
    proof {
        assert(data@.take(data@.len() as int) =~= data@);
    }
}

/// Byte-for-byte equality of two slices.
pub fn bytes_eq(a: &[u8], b: &[u8]) -> (r: bool)
    ensures
        r == (a@ == b@),
{
    if a.len() != b.len() {
        return false;
    }
    let mut k: usize = 0;
    while k < a.len()
        invariant
            k <= a@.len(),
            a@.len() == b@.len(),
            forall|m: int| 0 <= m < k ==> a@[m] == b@[m],
        decreases a@.len() - k,
    {
        if a[k] != b[k] {
            return false;
        }
        k = k + 1;
    }
    proof {
        assert(a@ =~= b@);
    }
    true
}

/// Match the literal `lit` at position `i`, returning the position just
/// after it.
pub fn match_lit(s: &[u8], i: usize, lit: &[u8]) -> (r: Option<usize>)
    requires
        i <= s@.len(),
    ensures
        match r {
            Some(j) => begins_with(s@.skip(i as int), lit@) && j == i + lit@.len() && j
                <= s@.len(),
            None => !begins_with(s@.skip(i as int), lit@),
        },
{
    if s.len() - i < lit.len() {
        return None;
    }
    let mut k: usize = 0;
    while k < lit.len()
        invariant
            0 <= k <= lit@.len(),
            i + lit@.len() <= s@.len(),
            s@.len() <= usize::MAX,
            forall|m: int| 0 <= m < k ==> s@[i + m] == lit@[m],
        decreases lit@.len() - k,
    {
        if s[i + k] != lit[k] {
            proof {
                let pre = s@.skip(i as int).take(lit@.len() as int);
                assert(pre[k as int] == s@[i + k]);
                assert(pre != lit@);
            }
            return None;
        }
        k = k + 1;
    }
    proof {
        assert(s@.skip(i as int).take(lit@.len() as int) =~= lit@);
    }
    Some(i + lit.len())
}

} // verus!
