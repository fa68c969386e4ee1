//! Byte-level views of UTF-8 strings and the few `String` primitives the
//! editors and parsers build on.
use vstd::prelude::*;
use vstd::utf8::*;
use vstd::string::StringSliceAdditionalSpecFns;
use vstd::std_specs::iter::IteratorSpec;

verus! {

broadcast use vstd::utf8::group_utf8_lib;

/// The UTF-8 bytes of a character sequence (what `str::as_bytes` returns).
pub open spec fn enc(s: Seq<char>) -> Seq<u8> {
    encode_utf8(s)
}

/// The character sequences of a list of strings.
pub open spec fn views(v: Seq<String>) -> Seq<Seq<char>> {
    v.map_values(|t: String| t@)
}

/// The byte that encodes `'\n'`.
pub open spec fn is_newline(b: u8) -> bool {
    b == 10u8
}

/// A byte that starts a character (anything but a UTF-8 continuation byte).
pub open spec fn starts_char(b: u8) -> bool {
    !is_continuation_byte(b)
}

/// Encoding distributes over concatenation.
pub proof fn lemma_enc_concat(a: Seq<char>, b: Seq<char>)
    ensures
        enc(a + b) == enc(a) + enc(b),
    decreases a.len(),
{
    if a.len() == 0 {
        assert(a + b =~= b);
        assert(enc(a) =~= Seq::<u8>::empty());
        assert(enc(a) + enc(b) =~= enc(b));
    } else {
        assert((a + b).drop_first() =~= a.drop_first() + b);
        lemma_enc_concat(a.drop_first(), b);
        assert((a + b)[0] == a[0]);
        assert(enc(a + b) == encode_scalar(a[0] as u32) + enc(a.drop_first() + b));
        assert(enc(a) == encode_scalar(a[0] as u32) + enc(a.drop_first()));
        assert(enc(a + b) =~= enc(a) + enc(b));
    }
}

/// The encoding of one character is its scalar encoding.
pub proof fn lemma_enc_single(c: char)
    ensures
        enc(seq![c]) == encode_scalar(c as u32),
{
    assert(seq![c].drop_first() =~= Seq::<char>::empty());
    assert(enc(Seq::<char>::empty()) =~= Seq::<u8>::empty());
    assert(enc(seq![c]) =~= encode_scalar(c as u32) + Seq::<u8>::empty());
    assert(encode_scalar(c as u32) + Seq::<u8>::empty() =~= encode_scalar(c as u32));
}

/// The encoding of a character is 1 to 4 bytes; its first byte starts a
/// character and every later byte is a continuation byte.
pub proof fn lemma_scalar_shape(c: char)
    ensures
        1 <= encode_scalar(c as u32).len() <= 4,
        starts_char(encode_scalar(c as u32)[0]),
        forall|k: int|
            1 <= k < encode_scalar(c as u32).len() ==> is_continuation_byte(
                #[trigger] encode_scalar(c as u32)[k],
            ),
        (c == '\n') <==> (encode_scalar(c as u32) == seq![10u8]),
        encode_scalar(c as u32).len() == 1 ==> encode_scalar(c as u32)[0] == (c as u32) as u8,
        encode_scalar(c as u32).len() > 1 ==> encode_scalar(c as u32)[0] >= 0xc0,
{
    let v = c as u32;
    assert(is_scalar(v));
    if has_width_1_encoding(v) {
        assert((v & 0x7F) as u8 == v as u8 && v as u8 <= 0x7f) by (bit_vector)
            requires
                v <= 0x7F,
        ;
        if c == '\n' {
            assert(v == 10);
        }
        if encode_scalar(v) == seq![10u8] {
            assert(encode_scalar(v)[0] == 10u8);
            assert(v == 10);
            assert(c == (v as char));
        }
    } else if has_width_2_encoding(v) {
        let b0 = leading_byte_width_2(v);
        let b1 = last_continuation_byte(v);
        assert(0xc0 <= (0xC0 | ((v >> 6) & 0x1F) as u8) <= 0xdf) by (bit_vector);
        assert(0x80 <= (0x80 | (v & 0x3F) as u8) <= 0xbf) by (bit_vector);
        assert(encode_scalar(v)[1] == b1);
        if encode_scalar(v) == seq![10u8] {
            assert(encode_scalar(v).len() == 1);
        }
    } else if has_width_3_encoding(v) {
        assert(0xe0 <= (0xE0 | ((v >> 12) & 0x0F) as u8) <= 0xef) by (bit_vector);
        assert(0x80 <= (0x80 | ((v >> 6) & 0x3F) as u8) <= 0xbf) by (bit_vector);
        assert(0x80 <= (0x80 | (v & 0x3F) as u8) <= 0xbf) by (bit_vector);
        if encode_scalar(v) == seq![10u8] {
            assert(encode_scalar(v).len() == 1);
        }
    } else {
        assert(0xf0 <= (0xF0 | ((v >> 18) & 0x7) as u8) <= 0xf7) by (bit_vector);
        assert(0x80 <= (0x80 | ((v >> 12) & 0x3F) as u8) <= 0xbf) by (bit_vector);
        assert(0x80 <= (0x80 | ((v >> 6) & 0x3F) as u8) <= 0xbf) by (bit_vector);
        assert(0x80 <= (0x80 | (v & 0x3F) as u8) <= 0xbf) by (bit_vector);
        if encode_scalar(v) == seq![10u8] {
            assert(encode_scalar(v).len() == 1);
        }
    }
}

/// `String::push`: appends one character.
#[verifier::external_body]
pub(crate) fn push_char(s: &mut String, c: char)
    ensures
        final(s)@ == old(s)@.push(c),
{
    s.push(c);
}

/// Appends a string slice.
pub(crate) fn push_str(s: &mut String, t: &str)
    ensures
        final(s)@ == old(s)@ + t@,
{
    s.append(t);
}

/// Number of bytes in the UTF-8 encoding of `c` (`char::len_utf8`).
pub fn utf8_width(c: char) -> (w: usize)
    ensures
        w == encode_scalar(c as u32).len(),
{
    let v = c as u32;
    proof {
        assert(is_scalar(v));
    }
    if v <= 0x7F {
        1
    } else if v <= 0x7FF {
        2
    } else if v <= 0xFFFF {
        3
    } else {
        4
    }
}

/// A new string whose bytes are `s`'s with `c` encoded at byte offset `at`.
pub fn insert_char_at(s: &String, at: usize, c: char) -> (r: String)
    requires
        is_char_boundary(enc(s@), at as int),
    ensures
        enc(r@) == enc(s@).take(at as int) + encode_scalar(c as u32) + enc(s@).skip(at as int),
        r@.len() == s@.len() + 1,
{
    let ghost b = enc(s@);
    let (left, right) = s.as_str().split_at(at);
    let mut out = left.to_owned();
    push_char(&mut out, c);
    push_str(&mut out, right);
    proof {
        assert(left.spec_bytes() =~= b.take(at as int));
        assert(right.spec_bytes() =~= b.skip(at as int));
        lemma_enc_concat(left@, seq![c]);
        lemma_enc_single(c);
        assert(left@.push(c) =~= left@ + seq![c]);
        lemma_enc_concat(left@.push(c), right@);
        assert(decode_utf8(enc(s@)) == s@);
        assert(valid_utf8(b));
        decode_utf8_split(b, at as int);
        assert(decode_utf8(left.spec_bytes()) == left@);
        assert(decode_utf8(right.spec_bytes()) == right@);
        assert(b.take(at as int) =~= b.subrange(0, at as int));
        assert(b.skip(at as int) =~= b.subrange(at as int, b.len() as int));
    }
    out
}

/// A new string whose bytes are `s`'s without the byte range `[lo, hi)`.
pub fn remove_byte_range(s: &String, lo: usize, hi: usize) -> (r: String)
    requires
        lo <= hi,
        is_char_boundary(enc(s@), lo as int),
        is_char_boundary(enc(s@), hi as int),
    ensures
        enc(r@) == enc(s@).take(lo as int) + enc(s@).skip(hi as int),
{
    let ghost b = enc(s@);
    let (left, rest) = s.as_str().split_at(lo);
    proof {
        assert(rest.spec_bytes() =~= b.subrange(lo as int, b.len() as int));
        assert(valid_utf8(rest.spec_bytes()));
        if hi - lo < rest.spec_bytes().len() {
            assert(rest.spec_bytes()[hi - lo] == b[hi as int]);
            assert(is_char_boundary(rest.spec_bytes(), hi - lo) <==> !is_continuation_byte(
                b[hi as int],
            ));
        }
        if hi - lo == 0 {
            is_char_boundary_start_end_of_seq(rest.spec_bytes());
        }
        if hi - lo == rest.spec_bytes().len() {
            is_char_boundary_start_end_of_seq(rest.spec_bytes());
        }
    }
    let (_gone, right) = rest.split_at(hi - lo);
    let mut out = left.to_owned();
    push_str(&mut out, right);
    proof {
        assert(left.spec_bytes() =~= b.take(lo as int));
        assert(right.spec_bytes() =~= b.skip(hi as int));
        lemma_enc_concat(left@, right@);
    }
    out
}


/// The characters of a string slice, in order.
pub fn chars_of(s: &str) -> (v: Vec<char>)
    ensures
        v@ == s@,
{
    broadcast use vstd::string::group_string_axioms;

    let mut it = s.chars();
    let mut out: Vec<char> = Vec::new();
    loop
        invariant
            it.obeys_prophetic_iter_laws(),
            out@ + it.remaining() == s@,
        ensures
            out@ == s@,
        decreases s@.len() - out@.len(),
    {
        match it.next() {
            Some(c) => {
                out.push(c);
                assert(out@.len() <= s@.len()) by {
                    assert((out@ + it.remaining()).len() == s@.len());
                }
            },
            None => {
                assert(out@ =~= s@);
                break;
            },
        }
    }
    out
}


/// A string made of the given characters.
pub fn string_from_chars(v: &Vec<char>) -> (r: String)
    ensures
        r@ == v@,
{
    let mut out = String::new();
    let mut i: usize = 0;
    while i < v.len()
        invariant
            i <= v.len(),
            out@ == v@.take(i as int),
        decreases v.len() - i,
    {
        push_char(&mut out, v[i]);
        proof {
            assert(v@.take(i as int).push(v@[i as int]) =~= v@.take(i + 1));
        }
        i = i + 1;
    }
    assert(v@.take(v@.len() as int) =~= v@);
    out
}

/// Unicode lower-casing (what `str::to_lowercase` returns).
pub uninterp spec fn lowercase(s: Seq<char>) -> Seq<char>;

/// `str::to_lowercase`: the Unicode lower-case mapping of a string. On an
/// all-ASCII string it maps `A`-`Z` to `a`-`z` and keeps every other
/// character.
#[verifier::external_body]
pub(crate) fn to_lowercase(s: &str) -> (r: String)
    ensures
        r@ == lowercase(s@),
        (forall|i: int| 0 <= i < s@.len() ==> (#[trigger] s@[i] as u32) < 128) ==> r@ == s@.map_values(
            |c: char| crate::names::ascii_lower(c),
        ),
{
    s.to_lowercase()
}

/// A character with the Unicode `White_Space` property (what
/// `char::is_whitespace` accepts).
pub open spec fn is_white_space(c: char) -> bool {
    ||| ('\u{9}' <= c <= '\u{d}')
    ||| c == ' '
    ||| c == '\u{85}'
    ||| c == '\u{a0}'
    ||| c == '\u{1680}'
    ||| ('\u{2000}' <= c <= '\u{200a}')
    ||| c == '\u{2028}'
    ||| c == '\u{2029}'
    ||| c == '\u{202f}'
    ||| c == '\u{205f}'
    ||| c == '\u{3000}'
}

/// `s` without its leading whitespace.
pub open spec fn trimmed_start(s: Seq<char>) -> Seq<char>
    decreases s.len(),
{
    if s.len() > 0 && is_white_space(s[0]) {
        trimmed_start(s.drop_first())
    } else {
        s
    }
}

/// `s` without its trailing whitespace (what `str::trim_end` returns).
pub open spec fn trimmed_end(s: Seq<char>) -> Seq<char>
    decreases s.len(),
{
    if s.len() > 0 && is_white_space(s.last()) {
        trimmed_end(s.drop_last())
    } else {
        s
    }
}

/// `s` without leading and trailing whitespace (what `str::trim` returns).
pub open spec fn trimmed(s: Seq<char>) -> Seq<char> {
    trimmed_end(trimmed_start(s))
}

/// `str::trim`: the string without leading and trailing whitespace
/// (characters with the Unicode `White_Space` property).
#[verifier::external_body]
pub(crate) fn trim(s: &str) -> (r: &str)
    ensures
        r@ == trimmed(s@),
{
    s.trim()
}


/// `str::trim_end`: the string without trailing whitespace (characters
/// with the Unicode `White_Space` property).
#[verifier::external_body]
pub(crate) fn trim_end(s: &str) -> (r: &str)
    ensures
        r@ == trimmed_end(s@),
{
    s.trim_end()
}

/// Equality of two string slices.
pub fn str_eq(a: &str, b: &str) -> (r: bool)
    ensures
        r == (a@ == b@),
{
    let x = chars_of(a);
    let y = chars_of(b);
    if x.len() != y.len() {
        return false;
    }
    let mut i: usize = 0;
    while i < x.len()
        invariant
            x@ == a@,
            y@ == b@,
            x@.len() == y@.len(),
            i <= x@.len(),
            forall|k: int| 0 <= k < i ==> x@[k] == y@[k],
        decreases x@.len() - i,
    {
        if x[i] != y[i] {
            assert(a@[i as int] != b@[i as int]);
            return false;
        }
        i = i + 1;
    }
    assert(x@ =~= y@);
    true
}

} // verus!
