//! Workspace-wide substring search: hits and the snippets shown for them.
use vstd::prelude::*;
use vstd::utf8::*;
use vstd::string::StringSliceAdditionalSpecFns;
use crate::caret::{col_offset, col_offset_in, lemma_col_offset_boundary, lemma_col_offset_range};
use crate::strings::{chars_of, enc, lemma_enc_concat, lemma_enc_single, lemma_scalar_shape, push_char, starts_char};

verus! {

broadcast use vstd::utf8::group_utf8_lib;

/// Which text of an object matched.
#[derive(Debug, Clone, Copy, PartialEq, Eq, Structural)]
pub enum HitKind {
    TextBox,
    NoteBody,
    NoteTitle,
}

/// One match of a workspace search.
#[derive(Debug, Clone)]
pub struct Hit {
    /// The file the object lives in.
    pub file: String,
    pub object_id: u64,
    pub kind: HitKind,
    pub snippet: String,
}

/// Characters kept on each side of a match in a snippet.
pub const SNIPPET_PAD: usize = 30;

/// Start of character number `k` counting backwards from byte `p`
/// (0 when there are no more than `k` characters before `p`).
pub open spec fn char_start_back(b: Seq<u8>, p: int, k: nat) -> int
    decreases p,
{
    if p <= 0 {
        0
    } else if starts_char(b[p - 1]) {
        if k == 0 {
            p - 1
        } else {
            char_start_back(b, p - 1, (k - 1) as nat)
        }
    } else {
        char_start_back(b, p - 1, k)
    }
}

/// A byte with `'\n'` replaced by a space.
pub open spec fn flatten_byte(c: u8) -> u8 {
    if c == 10 {
        32
    } else {
        c
    }
}

/// A character with `'\n'` replaced by a space.
pub open spec fn flatten_char(c: char) -> char {
    if c == '\n' {
        ' '
    } else {
        c
    }
}

/// The UTF-8 bytes of the ellipsis that marks cut text.
pub open spec fn ellipsis_bytes() -> Seq<u8> {
    enc(seq!['\u{2026}'])
}

/// The bytes of the snippet for a match of `len` bytes at byte `at`.
pub open spec fn snippet_bytes(b: Seq<u8>, at: int, len: int) -> Seq<u8> {
    let start = char_start_back(b, at, SNIPPET_PAD as nat);
    let end = col_offset(b, at + len, b.len() as int, SNIPPET_PAD as nat);
    (if start > 0 { ellipsis_bytes() } else { Seq::empty() }) + b.subrange(start, end).map_values(
        |c: u8| flatten_byte(c),
    ) + (if end < b.len() { ellipsis_bytes() } else { Seq::empty() })
}

proof fn lemma_char_start_back(b: Seq<u8>, p: int, k: nat)
    requires
        valid_utf8(b),
        0 <= p <= b.len(),
    ensures
        0 <= char_start_back(b, p, k) <= p,
        is_char_boundary(b, char_start_back(b, p, k)),
    decreases p,
{
    is_char_boundary_start_end_of_seq(b);
    if p > 0 {
        if starts_char(b[p - 1]) {
            is_char_boundary_iff_not_is_continuation_byte(b, p - 1);
            if k > 0 {
                lemma_char_start_back(b, p - 1, (k - 1) as nat);
            }
        } else {
            lemma_char_start_back(b, p - 1, k);
        }
    }
}

/// Flattening newlines commutes with encoding.
proof fn lemma_enc_flatten(cs: Seq<char>)
    ensures
        enc(cs.map_values(|c: char| flatten_char(c))) == enc(cs).map_values(|c: u8| flatten_byte(c)),
    decreases cs.len(),
{
    if cs.len() > 0 {
        let c = cs[0];
        let rest = cs.drop_first();
        lemma_enc_flatten(rest);
        assert(cs =~= seq![c] + rest);
        assert(cs.map_values(|c: char| flatten_char(c)) =~= seq![flatten_char(c)] + rest.map_values(
            |c: char| flatten_char(c),
        ));
        lemma_enc_concat(seq![c], rest);
        lemma_enc_concat(seq![flatten_char(c)], rest.map_values(|c: char| flatten_char(c)));
        lemma_enc_single(c);
        lemma_enc_single(flatten_char(c));
        lemma_scalar_shape(c);
        lemma_scalar_shape(' ');
        let e = encode_scalar(c as u32);
        if c == '\n' {
            assert(encode_scalar(' ' as u32) == seq![32u8]) by {
                assert((' ' as u32) == 32);
            }
            assert(e.map_values(|x: u8| flatten_byte(x)) =~= seq![32u8]);
        } else {
            assert forall|k: int| 0 <= k < e.len() implies e[k] != 10 by {
                if k == 0 && e.len() == 1 {
                    if e[0] == 10 {
                        assert(e =~= seq![10u8]);
                    }
                }
            }
            assert(e.map_values(|x: u8| flatten_byte(x)) =~= e);
        }
        assert((enc(seq![c]) + enc(rest)).map_values(|x: u8| flatten_byte(x)) =~= enc(
            seq![c],
        ).map_values(|x: u8| flatten_byte(x)) + enc(rest).map_values(|x: u8| flatten_byte(x)));
    } else {
        assert(cs.map_values(|c: char| flatten_char(c)) =~= cs);
        assert(enc(cs) =~= Seq::<u8>::empty());
        assert(enc(cs).map_values(|c: u8| flatten_byte(c)) =~= Seq::<u8>::empty());
    }
}

fn char_start_back_at(b: &[u8], p: usize, k: usize) -> (r: usize)
    requires
        p <= b@.len(),
    ensures
        r == char_start_back(b@, p as int, k as nat),
{
    let mut q = p;
    let mut left = k;
    while q > 0
        invariant
            q <= p <= b@.len(),
            left <= k,
            char_start_back(b@, q as int, left as nat) == char_start_back(b@, p as int, k as nat),
        decreases q,
    {
        let x = b[q - 1];
        if !(0x80 <= x && x <= 0xbf) {
            if left == 0 {
                return q - 1;
            }
            left = left - 1;
        }
        q = q - 1;
    }
    0
}

/// A short excerpt of `text` around the match of `match_len` bytes at byte
/// `match_byte`: up to 30 characters of context on each side, newlines
/// shown as spaces, and an ellipsis wherever text was cut.
pub fn snippet_around(text: &str, match_byte: usize, match_len: usize) -> (snip: String)
    requires
        match_byte + match_len <= text.spec_bytes().len(),
        is_char_boundary(text.spec_bytes(), match_byte as int),
        is_char_boundary(text.spec_bytes(), (match_byte + match_len) as int),
    ensures
        enc(snip@) == snippet_bytes(text.spec_bytes(), match_byte as int, match_len as int),
{
    let b = text.as_bytes();
    let n = b.len();
    let start = char_start_back_at(b, match_byte, SNIPPET_PAD);
    let after = match_byte + match_len;
    let end = col_offset_in(b, after, n, SNIPPET_PAD);
    proof {
        lemma_char_start_back(b@, match_byte as int, SNIPPET_PAD as nat);
        lemma_col_offset_range(b@, after as int, n as int, SNIPPET_PAD as nat);
        is_char_boundary_start_end_of_seq(b@);
        lemma_col_offset_boundary(b@, after as int, n as int, SNIPPET_PAD as nat);
    }
    let mut snip = String::new();
    if start > 0 {
        push_char(&mut snip, '\u{2026}');
    }
    let ghost prefix = snip@;
    let (_, rest) = text.split_at(start);
    proof {
        assert(rest.spec_bytes() =~= b@.subrange(start as int, n as int));
        assert(valid_utf8(rest.spec_bytes()));
        if end - start < rest.spec_bytes().len() {
            is_char_boundary_iff_not_is_continuation_byte(b@, end as int);
            is_char_boundary_iff_not_is_continuation_byte(rest.spec_bytes(), end - start);
        }
        is_char_boundary_start_end_of_seq(rest.spec_bytes());
    }
    let (mid, _) = rest.split_at(end - start);
    let cs = chars_of(mid);
    let mut i: usize = 0;
    while i < cs.len()
        invariant
            i <= cs@.len(),
            snip@ == prefix + cs@.take(i as int).map_values(|c: char| flatten_char(c)),
        decreases cs@.len() - i,
    {
        let c = cs[i];
        if c == '\n' {
            push_char(&mut snip, ' ');
        } else {
            push_char(&mut snip, c);
        }
        assert(cs@.take(i + 1).map_values(|c: char| flatten_char(c)) =~= cs@.take(
            i as int,
        ).map_values(|c: char| flatten_char(c)).push(flatten_char(c)));
        i = i + 1;
    }
    let ghost body = snip@;
    if end < n {
        push_char(&mut snip, '\u{2026}');
    }
    proof {
        assert(cs@.take(cs@.len() as int) =~= cs@);
        assert(mid.spec_bytes() =~= b@.subrange(start as int, end as int));
        lemma_enc_flatten(mid@);
        let flat = mid@.map_values(|c: char| flatten_char(c));
        assert(body == prefix + flat);
        lemma_enc_concat(prefix, flat);
        if start > 0 {
            assert(prefix == seq!['\u{2026}']) by {
                assert(Seq::<char>::empty().push('\u{2026}') =~= seq!['\u{2026}']);
            }
        } else {
            assert(enc(prefix) =~= Seq::<u8>::empty());
        }
        if end < n {
            assert(snip@ == body + seq!['\u{2026}']);
            lemma_enc_concat(body, seq!['\u{2026}']);
        } else {
            assert(snip@ == body);
        }
        assert(enc(snip@) =~= snippet_bytes(b@, match_byte as int, match_len as int));
    }
    snip
}

} // verus!
