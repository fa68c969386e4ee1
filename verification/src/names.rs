//! File-name arithmetic: decimal numbers, display labels, trash names,
//! numbered free names and slugs.
use vstd::prelude::*;
use crate::strings::{chars_of, push_char, push_str, string_from_chars};

verus! {

/// The extension every whiteboard file carries.
pub open spec fn ext_writee() -> Seq<char> {
    seq!['.', 'w', 'r', 'i', 't', 'e', 'e']
}

pub open spec fn digit_char(d: nat) -> char {
    if d == 0 {
        '0'
    } else if d == 1 {
        '1'
    } else if d == 2 {
        '2'
    } else if d == 3 {
        '3'
    } else if d == 4 {
        '4'
    } else if d == 5 {
        '5'
    } else if d == 6 {
        '6'
    } else if d == 7 {
        '7'
    } else if d == 8 {
        '8'
    } else {
        '9'
    }
}

pub open spec fn is_digit_char(c: char) -> bool {
    '0' <= c <= '9'
}

/// The decimal digits of `n`, most significant first, with no leading zero.
pub open spec fn dec(n: nat) -> Seq<char>
    decreases n,
{
    if n < 10 {
        seq![digit_char(n)]
    } else {
        dec(n / 10).push(digit_char(n % 10))
    }
}

proof fn lemma_digit_char_injective(a: nat, b: nat)
    requires
        a < 10,
        b < 10,
        digit_char(a) == digit_char(b),
    ensures
        a == b,
{
}

/// Decimal strings are made of digits and are never empty.
pub proof fn lemma_dec_digits(n: nat)
    ensures
        dec(n).len() >= 1,
        forall|i: int| 0 <= i < dec(n).len() ==> is_digit_char(#[trigger] dec(n)[i]),
    decreases n,
{
    if n >= 10 {
        lemma_dec_digits(n / 10);
    }
}

/// Different numbers have different decimal strings.
pub proof fn lemma_dec_injective(a: nat, b: nat)
    requires
        dec(a) == dec(b),
    ensures
        a == b,
    decreases a,
{
    if a < 10 && b < 10 {
        assert(dec(a) == seq![digit_char(a)]);
        assert(dec(b) == seq![digit_char(b)]);
        assert(dec(a)[0] == digit_char(a));
        assert(dec(b)[0] == digit_char(b));
        lemma_digit_char_injective(a, b);
    } else if a >= 10 && b >= 10 {
        lemma_dec_digits(a / 10);
        lemma_dec_digits(b / 10);
        assert(dec(a).last() == digit_char(a % 10));
        assert(dec(b).last() == digit_char(b % 10));
        lemma_digit_char_injective(a % 10, b % 10);
        assert(dec(a / 10) =~= dec(a).drop_last());
        assert(dec(b / 10) =~= dec(b).drop_last());
        lemma_dec_injective(a / 10, b / 10);
    } else if a < 10 {
        lemma_dec_digits(b / 10);
        assert(dec(b).len() >= 2);
    } else {
        lemma_dec_digits(a / 10);
        assert(dec(a).len() >= 2);
    }
}

proof fn lemma_dec_step(m: nat)
    requires
        m >= 10,
    ensures
        dec(m) == dec(m / 10).push(digit_char(m % 10)),
{
}

fn digit(d: u64) -> (c: char)
    requires
        d < 10,
    ensures
        c == digit_char(d as nat),
{
    if d == 0 {
        '0'
    } else if d == 1 {
        '1'
    } else if d == 2 {
        '2'
    } else if d == 3 {
        '3'
    } else if d == 4 {
        '4'
    } else if d == 5 {
        '5'
    } else if d == 6 {
        '6'
    } else if d == 7 {
        '7'
    } else if d == 8 {
        '8'
    } else {
        '9'
    }
}

/// `n` written in decimal.
pub fn decimal(n: u64) -> (s: String)
    ensures
        s@ == dec(n as nat),
{
    let mut m: u64 = n;
    let mut acc: Vec<char> = Vec::new();
    while m >= 10
        invariant
            dec(n as nat) == dec(m as nat) + acc@,
        decreases m,
    {
        let c = digit(m % 10);
        let ghost prev = acc@;
        let ghost q: nat = (m / 10) as nat;
        proof {
            lemma_dec_step(m as nat);
        }
        acc.insert(0, c);
        m = m / 10;
        proof {
            assert(acc@ =~= seq![c] + prev);
            assert(dec(q).push(c) + prev =~= dec(q) + acc@);
        }
    }
    let first = digit(m);
    acc.insert(0, first);
    proof {
        assert(acc@ =~= seq![first] + acc@.drop_first());
    }
    string_from_chars(&acc)
}

/// `s` without the suffix `suf`, or `s` itself when it does not end so.
pub open spec fn strip_suffix(s: Seq<char>, suf: Seq<char>) -> Seq<char> {
    if s.len() >= suf.len() && s.skip(s.len() - suf.len()) == suf {
        s.take(s.len() - suf.len())
    } else {
        s
    }
}

/// `s` without its leading underscores.
pub open spec fn trim_leading_underscores(s: Seq<char>) -> Seq<char>
    decreases s.len(),
{
    if s.len() > 0 && s[0] == '_' {
        trim_leading_underscores(s.drop_first())
    } else {
        s
    }
}

/// The part of `s` after its first occurrence of `c`, or `s` when it has none.
pub open spec fn after_first(s: Seq<char>, c: char) -> Seq<char>
    decreases s.len(),
{
    if s.len() == 0 {
        s
    } else if s[0] == c {
        s.drop_first()
    } else if s.drop_first().contains(c) {
        after_first(s.drop_first(), c)
    } else {
        s
    }
}

/// The label shown for a file: no `.writee` extension, no leading `_`.
pub open spec fn display_name(file: Seq<char>) -> Seq<char> {
    trim_leading_underscores(strip_suffix(file, ext_writee()))
}

/// The label shown for a trashed file: its stem after the timestamp prefix.
pub open spec fn trash_label(name: Seq<char>) -> Seq<char> {
    after_first(strip_suffix(name, ext_writee()), '_')
}

/// The stem a file gets in the trash: `<ts>_<stem>`.
pub open spec fn trash_stem(ts: nat, stem: Seq<char>) -> Seq<char> {
    dec(ts) + seq!['_'] + stem
}

/// `s` without the suffix `suf` if it has it.
fn strip_suffix_chars(s: &Vec<char>, suf: &Vec<char>) -> (r: Vec<char>)
    ensures
        r@ == strip_suffix(s@, suf@),
{
    if s.len() < suf.len() {
        return s.clone();
    }
    let base = s.len() - suf.len();
    let mut i: usize = 0;
    while i < suf.len()
        invariant
            base + suf@.len() == s@.len(),
            s@.len() == s.len(),
            i <= suf@.len(),
            forall|k: int| 0 <= k < i ==> s@[base + k] == suf@[k],
        decreases suf@.len() - i,
    {
        if s[base + i] != suf[i] {
            assert(s@.skip(base as int)[i as int] != suf@[i as int]);
            return s.clone();
        }
        i = i + 1;
    }
    assert(s@.skip(base as int) =~= suf@);
    let mut out: Vec<char> = Vec::new();
    let mut j: usize = 0;
    while j < base
        invariant
            base <= s@.len(),
            j <= base,
            out@ == s@.take(j as int),
        decreases base - j,
    {
        out.push(s[j]);
        proof {
            assert(s@.take(j as int).push(s@[j as int]) =~= s@.take(j + 1));
        }
        j = j + 1;
    }
    out
}

fn writee_ext() -> (v: Vec<char>)
    ensures
        v@ == ext_writee(),
{
    let v = vec!['.', 'w', 'r', 'i', 't', 'e', 'e'];
    assert(v@ =~= ext_writee());
    v
}

fn skip_chars(s: &Vec<char>, from: usize) -> (r: Vec<char>)
    requires
        from <= s@.len(),
    ensures
        r@ == s@.skip(from as int),
{
    let mut out: Vec<char> = Vec::new();
    let mut j: usize = from;
    while j < s.len()
        invariant
            from <= j <= s@.len(),
            out@ == s@.subrange(from as int, j as int),
        decreases s@.len() - j,
    {
        out.push(s[j]);
        proof {
            assert(s@.subrange(from as int, j as int).push(s@[j as int]) =~= s@.subrange(
                from as int,
                j + 1,
            ));
        }
        j = j + 1;
    }
    assert(s@.subrange(from as int, s@.len() as int) =~= s@.skip(from as int));
    out
}

/// `.writee` file name to a friendly label: the extension and the leading
/// underscores that special files use are dropped.
pub fn display_name_for_file(file: &str) -> (r: String)
    ensures
        r@ == display_name(file@),
{
    let chars = chars_of(file);
    let ext = writee_ext();
    let stripped = strip_suffix_chars(&chars, &ext);
    let mut i: usize = 0;
    proof {
        assert(stripped@.skip(0) =~= stripped@);
    }
    while i < stripped.len() && stripped[i] == '_'
        invariant
            i <= stripped@.len(),
            trim_leading_underscores(stripped@) == trim_leading_underscores(
                stripped@.skip(i as int),
            ),
        decreases stripped@.len() - i,
    {
        proof {
            assert(stripped@.skip(i as int).drop_first() =~= stripped@.skip(i + 1));
        }
        i = i + 1;
    }
    let rest = skip_chars(&stripped, i);
    string_from_chars(&rest)
}

/// "1716843200_my-note.writee" to "my-note": the label of a trashed file.
pub fn strip_trash_prefix(name: &str) -> (r: String)
    ensures
        r@ == trash_label(name@),
{
    let chars = chars_of(name);
    let ext = writee_ext();
    let stem = strip_suffix_chars(&chars, &ext);
    let rest = after_first_underscore(&stem);
    string_from_chars(&rest)
}

/// The part of `s` after its first `_` (all of `s` when it has none).
pub fn after_underscore(s: &str) -> (r: String)
    ensures
        r@ == after_first(s@, '_'),
{
    let chars = chars_of(s);
    let rest = after_first_underscore(&chars);
    string_from_chars(&rest)
}

fn after_first_underscore(stem: &Vec<char>) -> (r: Vec<char>)
    ensures
        r@ == after_first(stem@, '_'),
{
    let mut i: usize = 0;
    proof {
        assert(stem@.skip(0) =~= stem@);
    }
    while i < stem.len() && stem[i] != '_'
        invariant
            i <= stem@.len(),
            forall|k: int| 0 <= k < i ==> stem@[k] != '_',
            after_first(stem@, '_') == if stem@.skip(i as int).contains('_') {
                after_first(stem@.skip(i as int), '_')
            } else {
                stem@
            },
        decreases stem@.len() - i,
    {
        proof {
            let t = stem@.skip(i as int);
            assert(t.drop_first() =~= stem@.skip(i + 1));
            assert(t[0] != '_');
            if t.contains('_') {
                let k = choose|k: int| 0 <= k < t.len() && t[k] == '_';
                assert(t.drop_first()[k - 1] == '_');
            }
            if t.drop_first().contains('_') {
                let k = choose|k: int| 0 <= k < t.drop_first().len() && t.drop_first()[k] == '_';
                assert(t[k + 1] == '_');
            }
        }
        i = i + 1;
    }
    if i == stem.len() {
        proof {
            assert(!stem@.skip(i as int).contains('_'));
        }
        stem.clone()
    } else {
        proof {
            assert(stem@.skip(i as int)[0] == '_');
            assert(stem@.skip(i as int).drop_first() =~= stem@.skip(i + 1));
        }
        skip_chars(&stem, i + 1)
    }
}

/// The file name a trashed file gets: `<ts>_<stem>.writee`.
pub fn trash_file_name(ts: u64, stem: &str) -> (r: String)
    ensures
        r@ == trash_stem(ts as nat, stem@) + ext_writee(),
{
    let mut out = decimal(ts);
    push_char(&mut out, '_');
    push_str(&mut out, stem);
    push_str(&mut out, ".writee");
    proof {
        reveal_strlit(".writee");
        assert(".writee"@ =~= ext_writee());
    }
    out
}

/// Restoring a trashed file's label gives back the stem it was trashed with.
pub proof fn law_trash_label_restores_stem(ts: nat, stem: Seq<char>)
    ensures
        trash_label(trash_stem(ts, stem) + ext_writee()) == stem,
{
    let t = trash_stem(ts, stem);
    let full = t + ext_writee();
    assert(full.skip(full.len() - 7) =~= ext_writee());
    assert(full.take(full.len() - 7) =~= t);
    lemma_dec_digits(ts);
    lemma_after_first_past_digits(dec(ts), stem);
}

pub proof fn lemma_after_first_past_digits(d: Seq<char>, stem: Seq<char>)
    requires
        forall|i: int| 0 <= i < d.len() ==> is_digit_char(#[trigger] d[i]),
    ensures
        after_first(d + seq!['_'] + stem, '_') == stem,
    decreases d.len(),
{
    let s = d + seq!['_'] + stem;
    if d.len() == 0 {
        assert(s[0] == '_');
        assert(s.drop_first() =~= stem);
    } else {
        assert(s[0] == d[0]);
        assert(s.drop_first() =~= d.drop_first() + seq!['_'] + stem);
        assert(s.drop_first()[d.len() - 1] == '_');
        lemma_after_first_past_digits(d.drop_first(), stem);
    }
}

/// The `i`-th free-name candidate for `stem`: `<stem>.writee`, then
/// `<stem>-2.writee`, `<stem>-3.writee`, ...
pub open spec fn numbered_name(stem: Seq<char>, i: nat) -> Seq<char> {
    if i <= 1 {
        stem + ext_writee()
    } else {
        stem + seq!['-'] + dec(i) + ext_writee()
    }
}

/// The stem of new files.
pub open spec fn untitled_stem() -> Seq<char> {
    seq!['u', 'n', 't', 'i', 't', 'l', 'e', 'd']
}

/// Candidates for different numbers (from 1) differ.
pub proof fn lemma_numbered_injective(stem: Seq<char>, a: nat, b: nat)
    requires
        1 <= a,
        1 <= b,
        numbered_name(stem, a) == numbered_name(stem, b),
    ensures
        a == b,
{
    let l = stem.len() as int;
    if a >= 2 && b >= 2 {
        let na = numbered_name(stem, a);
        let nb = numbered_name(stem, b);
        assert(na.subrange(l + 1, na.len() - 7) =~= dec(a));
        assert(nb.subrange(l + 1, nb.len() - 7) =~= dec(b));
        lemma_dec_injective(a, b);
    } else if a >= 2 {
        assert(numbered_name(stem, a)[l] == '-');
        assert(numbered_name(stem, b)[l] == '.');
    } else if b >= 2 {
        assert(numbered_name(stem, b)[l] == '-');
        assert(numbered_name(stem, a)[l] == '.');
    }
}

/// The `i`-th free-name candidate for `stem`.
pub fn numbered_file_name(stem: &str, i: u64) -> (r: String)
    ensures
        r@ == numbered_name(stem@, i as nat),
{
    proof {
        reveal_strlit(".writee");
        assert(".writee"@ =~= ext_writee());
    }
    let mut r = stem.to_owned();
    if i > 1 {
        push_char(&mut r, '-');
        let d = decimal(i);
        push_str(&mut r, d.as_str());
    }
    push_str(&mut r, ".writee");
    proof {
        if i > 1 {
            assert(r@ =~= numbered_name(stem@, i as nat));
        }
    }
    r
}

/// An ASCII letter or digit.
pub open spec fn is_ascii_alnum(c: char) -> bool {
    ('a' <= c <= 'z') || ('A' <= c <= 'Z') || ('0' <= c <= '9')
}

/// ASCII lower-casing; other characters are unchanged.
pub open spec fn ascii_lower(c: char) -> char {
    if 'A' <= c <= 'Z' {
        ((c as u32) + 32) as char
    } else {
        c
    }
}

/// The slug before trimming: letters and digits lower-cased, every run of
/// other characters one `-` (none right after a `-` already emitted).
pub open spec fn slug_raw(s: Seq<char>, last_dash: bool) -> Seq<char>
    decreases s.len(),
{
    if s.len() == 0 {
        s
    } else if is_ascii_alnum(s[0]) {
        seq![ascii_lower(s[0])] + slug_raw(s.drop_first(), false)
    } else if !last_dash {
        seq!['-'] + slug_raw(s.drop_first(), true)
    } else {
        slug_raw(s.drop_first(), true)
    }
}

pub open spec fn trim_leading_dashes(s: Seq<char>) -> Seq<char>
    decreases s.len(),
{
    if s.len() > 0 && s[0] == '-' {
        trim_leading_dashes(s.drop_first())
    } else {
        s
    }
}

pub open spec fn trim_trailing_dashes(s: Seq<char>) -> Seq<char>
    decreases s.len(),
{
    if s.len() > 0 && s.last() == '-' {
        trim_trailing_dashes(s.drop_last())
    } else {
        s
    }
}

/// The slug of a title: lower-case ASCII letters and digits joined by
/// single dashes, or `note` when nothing is left.
pub open spec fn slug(s: Seq<char>) -> Seq<char> {
    let t = trim_trailing_dashes(trim_leading_dashes(slug_raw(s, false)));
    if t.len() == 0 {
        seq!['n', 'o', 't', 'e']
    } else {
        t
    }
}

/// A character a slug may hold.
pub open spec fn is_slug_char(c: char) -> bool {
    ('a' <= c <= 'z') || ('0' <= c <= '9') || c == '-'
}

fn lower_ascii(c: char) -> (r: char)
    ensures
        r == ascii_lower(c),
{
    if 'A' <= c && c <= 'Z' {
        let v: u32 = c as u32 + 32;
        assert(0x61 <= v <= 0x7a);
        proof {
            assert(v == (c as u32) + 32);
        }
        let b: u8 = v as u8;
        b as char
    } else {
        c
    }
}

/// A file-name slug for a note title: ASCII letters and digits, lower-cased,
/// with every run of other characters turned into one dash, dashes trimmed
/// from both ends, and `note` for a title with nothing left.
pub fn slugify(s: &str) -> (r: String)
    ensures
        r@ == slug(s@),
{
    let chars = chars_of(s);
    let mut out: Vec<char> = Vec::new();
    let mut last_dash = false;
    let mut i: usize = 0;
    proof {
        assert(chars@.skip(0) =~= chars@);
    }
    while i < chars.len()
        invariant
            chars@ == s@,
            i <= chars@.len(),
            out@ + slug_raw(chars@.skip(i as int), last_dash) == slug_raw(s@, false),
        decreases chars@.len() - i,
    {
        let ch = chars[i];
        let ghost rest = chars@.skip(i as int);
        proof {
            assert(rest[0] == ch);
            assert(rest.drop_first() =~= chars@.skip(i + 1));
        }
        if ('a' <= ch && ch <= 'z') || ('A' <= ch && ch <= 'Z') || ('0' <= ch && ch <= '9') {
            let l = lower_ascii(ch);
            proof {
                assert(out@.push(l) + slug_raw(chars@.skip(i + 1), false) =~= out@ + (seq![l]
                    + slug_raw(chars@.skip(i + 1), false)));
            }
            out.push(l);
            last_dash = false;
        } else if !last_dash {
            proof {
                assert(out@.push('-') + slug_raw(chars@.skip(i + 1), true) =~= out@ + (seq!['-']
                    + slug_raw(chars@.skip(i + 1), true)));
            }
            out.push('-');
            last_dash = true;
        }
        i = i + 1;
    }
    proof {
        assert(out@ == slug_raw(s@, false)) by {
            assert(out@ + slug_raw(chars@.skip(i as int), last_dash) =~= out@);
        }
    }
    let mut lo: usize = 0;
    proof {
        assert(out@.skip(0) =~= out@);
    }
    while lo < out.len() && out[lo] == '-'
        invariant
            lo <= out@.len(),
            trim_leading_dashes(out@) == trim_leading_dashes(out@.skip(lo as int)),
        decreases out@.len() - lo,
    {
        proof {
            assert(out@.skip(lo as int).drop_first() =~= out@.skip(lo + 1));
        }
        lo = lo + 1;
    }
    let ghost lead = out@.skip(lo as int);
    assert(trim_leading_dashes(out@) == lead);
    let mut hi: usize = out.len();
    proof {
        assert(out@.subrange(lo as int, hi as int) =~= lead);
    }
    while hi > lo && out[hi - 1] == '-'
        invariant
            lo <= hi <= out@.len(),
            lead == out@.skip(lo as int),
            trim_trailing_dashes(lead) == trim_trailing_dashes(
                out@.subrange(lo as int, hi as int),
            ),
        decreases hi,
    {
        proof {
            assert(out@.subrange(lo as int, hi as int).drop_last() =~= out@.subrange(
                lo as int,
                hi - 1,
            ));
        }
        hi = hi - 1;
    }
    let ghost t = out@.subrange(lo as int, hi as int);
    assert(trim_trailing_dashes(lead) == t);
    if hi == lo {
        proof {
            reveal_strlit("note");
        }
        let r = String::from_str("note");
        assert(r@ =~= seq!['n', 'o', 't', 'e']);
        return r;
    }
    let mut res: Vec<char> = Vec::new();
    let mut k: usize = lo;
    while k < hi
        invariant
            lo <= k <= hi <= out@.len(),
            res@ == out@.subrange(lo as int, k as int),
        decreases hi - k,
    {
        res.push(out[k]);
        proof {
            assert(out@.subrange(lo as int, k as int).push(out@[k as int]) =~= out@.subrange(
                lo as int,
                k + 1,
            ));
        }
        k = k + 1;
    }
    string_from_chars(&res)
}

proof fn lemma_slug_raw_chars(s: Seq<char>, last_dash: bool)
    ensures
        forall|i: int| 0 <= i < slug_raw(s, last_dash).len() ==> is_slug_char(
            #[trigger] slug_raw(s, last_dash)[i],
        ),
    decreases s.len(),
{
    if s.len() > 0 {
        lemma_slug_raw_chars(s.drop_first(), is_ascii_alnum(s[0]) ==> false);
        lemma_slug_raw_chars(s.drop_first(), false);
        lemma_slug_raw_chars(s.drop_first(), true);
        if is_ascii_alnum(s[0]) {
            let c = s[0];
            if 'A' <= c <= 'Z' {
                assert(0x61 <= (c as u32) + 32 <= 0x7a);
                assert('a' <= ((c as u32) + 32) as char <= 'z');
            }
        }
    }
}

proof fn lemma_trim_leading_is_suffix(s: Seq<char>)
    ensures
        exists|k: int| 0 <= k <= s.len() && trim_leading_dashes(s) == s.skip(k),
        trim_leading_dashes(s).len() > 0 ==> trim_leading_dashes(s)[0] != '-',
    decreases s.len(),
{
    if s.len() > 0 && s[0] == '-' {
        lemma_trim_leading_is_suffix(s.drop_first());
        let k = choose|k: int|
            0 <= k <= s.drop_first().len() && trim_leading_dashes(s.drop_first())
                == s.drop_first().skip(k);
        assert(s.drop_first().skip(k) =~= s.skip(k + 1));
    } else {
        assert(s.skip(0) =~= s);
    }
}

proof fn lemma_trim_trailing_is_prefix(s: Seq<char>)
    ensures
        exists|k: int| 0 <= k <= s.len() && trim_trailing_dashes(s) == s.take(k),
        trim_trailing_dashes(s).len() > 0 ==> trim_trailing_dashes(s).last() != '-',
        trim_trailing_dashes(s).len() > 0 && s.len() > 0 ==> trim_trailing_dashes(s)[0] == s[0],
    decreases s.len(),
{
    if s.len() > 0 && s.last() == '-' {
        lemma_trim_trailing_is_prefix(s.drop_last());
        let k = choose|k: int|
            0 <= k <= s.drop_last().len() && trim_trailing_dashes(s.drop_last())
                == s.drop_last().take(k);
        assert(s.drop_last().take(k) =~= s.take(k));
    } else {
        assert(s.take(s.len() as int) =~= s);
    }
}

/// A slug is never empty, holds only lower-case ASCII letters, digits and
/// dashes, and neither starts nor ends with a dash.
pub proof fn law_slug_shape(s: Seq<char>)
    ensures
        slug(s).len() > 0,
        forall|i: int| 0 <= i < slug(s).len() ==> is_slug_char(#[trigger] slug(s)[i]),
        slug(s)[0] != '-',
        slug(s).last() != '-',
{
    let raw = slug_raw(s, false);
    lemma_slug_raw_chars(s, false);
    lemma_trim_leading_is_suffix(raw);
    let lead = trim_leading_dashes(raw);
    let k1 = choose|k: int| 0 <= k <= raw.len() && lead == raw.skip(k);
    lemma_trim_trailing_is_prefix(lead);
    let t = trim_trailing_dashes(lead);
    let k2 = choose|k: int| 0 <= k <= lead.len() && t == lead.take(k);
    if t.len() == 0 {
        let n = seq!['n', 'o', 't', 'e'];
        assert(slug(s) == n);
        assert forall|i: int| 0 <= i < n.len() implies is_slug_char(#[trigger] n[i]) by {}
    } else {
        assert forall|i: int| 0 <= i < t.len() implies is_slug_char(#[trigger] t[i]) by {
            assert(t[i] == raw[k1 + i]);
        }
    }
}

} // verus!
