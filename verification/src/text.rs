//! Byte- and character-level text operations over UTF-8 strings, with the
//! byte-offset semantics of `str::find` and of `str` slicing.

use vstd::prelude::*;
use vstd::utf8::*;
use vstd::string::*;
use vstd::string::StrSliceExecFns;

verus! {

broadcast use vstd::utf8::group_utf8_lib;

/// The UTF-8 bytes of a character sequence.
pub open spec fn utf8(s: Seq<char>) -> Seq<u8> {
    encode_utf8(s)
}

/// `needle` occurs in `hay` starting at byte `i`.
pub open spec fn occurs_at(hay: Seq<u8>, needle: Seq<u8>, i: int) -> bool {
    &&& 0 <= i
    &&& i + needle.len() <= hay.len()
    &&& hay.subrange(i, i + needle.len()) == needle
}

/// `i` is the leftmost position at which `needle` occurs in `hay`.
pub open spec fn is_first_occurrence(hay: Seq<u8>, needle: Seq<u8>, i: int) -> bool {
    &&& occurs_at(hay, needle, i)
    &&& forall|j: int| 0 <= j < i ==> !occurs_at(hay, needle, j)
}

/// The byte position of the leftmost occurrence of `needle` in `hay`, as
/// `str::find` reports it.
pub open spec fn find_first(hay: Seq<u8>, needle: Seq<u8>) -> Option<int> {
    if exists|i: int| is_first_occurrence(hay, needle, i) {
        Some(choose|i: int| is_first_occurrence(hay, needle, i))
    } else {
        None
    }
}

/// Position of the first occurrence of `needle` in the text `s`, in bytes.
pub open spec fn find_in(s: Seq<char>, needle: Seq<char>) -> Option<int> {
    find_first(utf8(s), utf8(needle))
}

/// The text `s` contains `needle`.
pub open spec fn contains(s: Seq<char>, needle: Seq<char>) -> bool {
    find_in(s, needle) is Some
}

/// A leftmost occurrence is unique.
pub proof fn lemma_first_occurrence_unique(hay: Seq<u8>, needle: Seq<u8>, i: int)
    requires
        is_first_occurrence(hay, needle, i),
    ensures
        find_first(hay, needle) == Some(i),
{
    let k = choose|k: int| is_first_occurrence(hay, needle, k);
    assert(is_first_occurrence(hay, needle, k));
    if k < i {
        assert(!occurs_at(hay, needle, k));
    } else if k > i {
        assert(!occurs_at(hay, needle, i));
    }
}

/// When nothing occurs anywhere, there is no first occurrence.
pub proof fn lemma_no_occurrence(hay: Seq<u8>, needle: Seq<u8>)
    requires
        forall|j: int| 0 <= j ==> !occurs_at(hay, needle, j),
    ensures
        find_first(hay, needle) is None,
{
}

fn bytes_occur_at(hay: &[u8], needle: &[u8], i: usize) -> (b: bool)
    requires
        i + needle@.len() <= hay@.len(),
    ensures
        b == occurs_at(hay@, needle@, i as int),
{
    let n = needle.len();
    let h = hay.len();
    let mut k: usize = 0;
    while k < n
        invariant
            n == needle@.len(),
            h == hay@.len(),
            k <= n,
            i + n <= h,
            forall|m: int| 0 <= m < k ==> hay@[i + m] == needle@[m],
        decreases n - k,
    {
        if hay[i + k] != needle[k] {
            assert(hay@.subrange(i as int, i + n)[k as int] != needle@[k as int]);
            return false;
        }
        k = k + 1;
    }
    assert(hay@.subrange(i as int, i + n) =~= needle@);
    true
}

/// Leftmost occurrence of `needle` in `hay`.
pub fn find_bytes(hay: &[u8], needle: &[u8]) -> (r: Option<usize>)
    ensures
        hay@.len() <= usize::MAX,
        match r {
            Some(i) => find_first(hay@, needle@) == Some(i as int),
            None => find_first(hay@, needle@) is None,
        },
{
    let h = hay.len();
    let n = needle.len();
    if n > h {
        proof {
            assert forall|j: int| 0 <= j implies !occurs_at(hay@, needle@, j) by {}
            lemma_no_occurrence(hay@, needle@);
        }
        return None;
    }
    let last = h - n;
    let mut i: usize = 0;
    loop
        invariant
            h == hay@.len(),
            n == needle@.len(),
            last + n == h,
            i <= last,
            forall|j: int| 0 <= j < i ==> !occurs_at(hay@, needle@, j),
        decreases last - i,
    {
        if bytes_occur_at(hay, needle, i) {
            proof {
                lemma_first_occurrence_unique(hay@, needle@, i as int);
            }
            return Some(i);
        }
        if i == last {
            proof {
                assert forall|j: int| 0 <= j implies !occurs_at(hay@, needle@, j) by {
                    if j < i {
                    }
                }
                lemma_no_occurrence(hay@, needle@);
            }
            return None;
        }
        i = i + 1;
    }
}

/// `str::find` with a string pattern: the byte position of the leftmost
/// occurrence of `needle` in `s`.
pub fn str_find(s: &str, needle: &str) -> (r: Option<usize>)
    ensures
        utf8(s@).len() <= usize::MAX,
        match r {
            Some(i) => find_in(s@, needle@) == Some(i as int),
            None => find_in(s@, needle@) is None,
        },
{
    find_bytes(s.as_bytes(), needle.as_bytes())
}

/// `str::contains` with a string pattern.
pub fn str_contains(s: &str, needle: &str) -> (b: bool)
    ensures
        b == contains(s@, needle@),
{
    str_find(s, needle).is_some()
}


/// A position holding an ASCII byte is a character boundary, and so is the
/// position right after it.
pub proof fn lemma_ascii_byte_boundaries(bytes: Seq<u8>, i: int)
    requires
        valid_utf8(bytes),
        0 <= i < bytes.len(),
        bytes[i] < 0x80,
    ensures
        is_char_boundary(bytes, i),
        is_char_boundary(bytes, i + 1),
{
    is_char_boundary_iff_not_is_continuation_byte(bytes, i);
    if i + 1 == bytes.len() {
        is_char_boundary_start_end_of_seq(bytes);
    } else {
        valid_utf8_split(bytes, i);
        let suffix = bytes.subrange(i, bytes.len() as int);
        assert(suffix[0] == bytes[i]);
        assert(valid_first_scalar(suffix));
        assert(length_of_first_scalar(suffix) == 1);
        let rest = pop_first_scalar(suffix);
        assert(rest.len() > 0);
        reveal_with_fuel(valid_utf8, 2);
        assert(valid_first_scalar(rest));
        assert(rest[0] == bytes[i + 1]);
        is_char_boundary_iff_not_is_continuation_byte(bytes, i + 1);
    }
}

/// Character boundaries of a sequence stay boundaries in a prefix that ends on
/// a boundary.
proof fn lemma_boundary_in_prefix(bytes: Seq<u8>, a: int, b: int)
    requires
        valid_utf8(bytes),
        0 <= a <= b <= bytes.len(),
        is_char_boundary(bytes, a),
        is_char_boundary(bytes, b),
    ensures
        valid_utf8(bytes.subrange(0, b)),
        is_char_boundary(bytes.subrange(0, b), a),
{
    valid_utf8_split(bytes, b);
    let prefix = bytes.subrange(0, b);
    if a == b {
        is_char_boundary_start_end_of_seq(prefix);
    } else {
        is_char_boundary_iff_not_is_continuation_byte(bytes, a);
        is_char_boundary_iff_not_is_continuation_byte(prefix, a);
    }
}

/// The text held by the bytes `a..b` of `s`, which must lie on character
/// boundaries.
pub open spec fn byte_slice(s: Seq<char>, a: int, b: int) -> Seq<char> {
    decode_utf8(utf8(s).subrange(a, b))
}

/// `s[a..b].to_string()`, where `a` and `b` are byte offsets on character
/// boundaries.
pub fn slice_to_string(s: &str, a: usize, b: usize) -> (r: String)
    requires
        a <= b <= utf8(s@).len(),
        is_char_boundary(utf8(s@), a as int),
        is_char_boundary(utf8(s@), b as int),
    ensures
        r@ == byte_slice(s@, a as int, b as int),
        utf8(r@) == utf8(s@).subrange(a as int, b as int),
{
    let ghost bytes = utf8(s@);
    proof {
        lemma_boundary_in_prefix(bytes, a as int, b as int);
    }
    let (left, _right) = s.split_at(b);
    assert(left.spec_bytes() =~= bytes.subrange(0, b as int));
    let (_skip, mid) = left.split_at(a);
    assert(mid.spec_bytes() =~= bytes.subrange(a as int, b as int));
    let r = mid.to_owned();
    proof {
        encode_utf8_decode_utf8(mid@);
    }
    r
}

/// Where a one-character ASCII text is found, the byte found is that
/// character, and both it and the position after it are character boundaries.
pub proof fn lemma_found_ascii_char(s: Seq<char>, needle: Seq<char>, i: int)
    requires
        needle.len() == 1,
        is_ascii_chars(needle),
        find_in(s, needle) == Some(i),
    ensures
        0 <= i < utf8(s).len(),
        utf8(s)[i] == needle[0] as u8,
        is_char_boundary(utf8(s), i),
        is_char_boundary(utf8(s), i + 1),
{
    let bytes = utf8(s);
    let nb = utf8(needle);
    assert(is_first_occurrence(bytes, nb, i));
    assert(bytes.subrange(i, i + 1)[0] == nb[0]);
    lemma_ascii_byte_boundaries(bytes, i);
}

/// `String::push`: appends one character.
#[verifier::external_body]
pub(crate) fn push_char(s: &mut String, c: char)
    ensures
        final(s)@ == old(s)@.push(c),
{
    s.push(c);
}

/// ASCII lower case of one character: `A`..`Z` become `a`..`z`, every other
/// character is kept.
pub open spec fn ascii_lower(c: char) -> char {
    if 'A' <= c && c <= 'Z' {
        ((c as u32) + 32) as char
    } else {
        c
    }
}

/// ASCII lower case of a text, as `str::make_ascii_lowercase` makes it.
pub open spec fn ascii_lowercase(s: Seq<char>) -> Seq<char> {
    s.map_values(|c: char| ascii_lower(c))
}

fn lower_char(c: char) -> (r: char)
    ensures
        r == ascii_lower(c),
{
    if 'A' <= c && c <= 'Z' {
        let code: u8 = (c as u8) + 32;
        code as char
    } else {
        c
    }
}

/// The text in ASCII lower case.
pub fn to_ascii_lowercase(s: &str) -> (r: String)
    ensures
        r@ == ascii_lowercase(s@),
{
    let n = s.unicode_len();
    let mut r = String::new();
    let mut i: usize = 0;
    while i < n
        invariant
            n == s@.len(),
            i <= n,
            r@ == ascii_lowercase(s@.take(i as int)),
        decreases n - i,
    {
        let c = s.get_char(i);
        push_char(&mut r, lower_char(c));
        assert(ascii_lowercase(s@.take(i + 1)) =~= ascii_lowercase(s@.take(i as int)).push(ascii_lower(c)));
        i = i + 1;
    }
    assert(s@.take(n as int) =~= s@);
    r
}

/// The characters of a text.
pub fn chars_of(s: &str) -> (r: Vec<char>)
    ensures
        r@ == s@,
{
    let n = s.unicode_len();
    let mut r: Vec<char> = Vec::new();
    let mut i: usize = 0;
    while i < n
        invariant
            n == s@.len(),
            i <= n,
            r@ == s@.take(i as int),
        decreases n - i,
    {
        r.push(s.get_char(i));
        assert(s@.take(i + 1) =~= s@.take(i as int).push(s@[i as int]));
        i = i + 1;
    }
    assert(s@.take(n as int) =~= s@);
    r
}

/// `s` with every non-overlapping occurrence of `pat`, taken from left to
/// right, replaced by `rep`, as `str::replace` makes it for a non-empty `pat`.
pub open spec fn replace_all(s: Seq<char>, pat: Seq<char>, rep: Seq<char>) -> Seq<char>
    decreases s.len(),
{
    if pat.len() == 0 || s.len() < pat.len() {
        s
    } else if s.take(pat.len() as int) == pat {
        rep + replace_all(s.skip(pat.len() as int), pat, rep)
    } else {
        seq![s[0]] + replace_all(s.skip(1), pat, rep)
    }
}

fn chars_match_at(s: &Vec<char>, pat: &Vec<char>, i: usize) -> (b: bool)
    requires
        i + pat@.len() <= s@.len(),
    ensures
        b == (s@.skip(i as int).take(pat@.len() as int) == pat@),
{
    let m = pat.len();
    let h = s.len();
    let mut k: usize = 0;
    while k < m
        invariant
            m == pat@.len(),
            h == s@.len(),
            k <= m,
            i + m <= h,
            forall|j: int| 0 <= j < k ==> s@[i + j] == pat@[j],
        decreases m - k,
    {
        if s[i + k] != pat[k] {
            assert(s@.skip(i as int).take(m as int)[k as int] != pat@[k as int]);
            return false;
        }
        k = k + 1;
    }
    assert(s@.skip(i as int).take(m as int) =~= pat@);
    true
}

/// `str::replace` for a non-empty pattern.
pub fn replace(s: &str, pat: &str, rep: &str) -> (r: String)
    requires
        pat@.len() > 0,
    ensures
        r@ == replace_all(s@, pat@, rep@),
{
    let sc = chars_of(s);
    let pc = chars_of(pat);
    let n = sc.len();
    let m = pc.len();
    let mut r = String::new();
    let mut i: usize = 0;
    assert(sc@.skip(0) =~= sc@);
    while i < n
        invariant
            sc@ == s@,
            pc@ == pat@,
            n == sc@.len(),
            m == pc@.len(),
            m > 0,
            i <= n,
            r@ + replace_all(sc@.skip(i as int), pc@, rep@) == replace_all(s@, pat@, rep@),
        decreases n - i,
    {
        let ghost rest = sc@.skip(i as int);
        if m <= n - i && chars_match_at(&sc, &pc, i) {
            assert(rest.take(m as int) == pc@);
            assert(rest.skip(m as int) =~= sc@.skip(i + m));
            let ghost before = r@;
            r.append(rep);
            assert(r@ + replace_all(sc@.skip(i + m), pc@, rep@) =~= before + (rep@ + replace_all(sc@.skip(i + m), pc@, rep@)));
            i = i + m;
        } else {
            assert(rest.skip(1) =~= sc@.skip(i + 1));
            proof {
                if rest.len() >= m {
                    assert(!(rest.take(m as int) == pc@));
                }
            }
            assert(replace_all(rest, pc@, rep@) =~= seq![rest[0]] + replace_all(sc@.skip(i + 1), pc@, rep@));
            let ghost before = r@;
            push_char(&mut r, sc[i]);
            assert(r@ + replace_all(sc@.skip(i + 1), pc@, rep@) =~= before + (seq![rest[0]] + replace_all(sc@.skip(i + 1), pc@, rep@)));
            i = i + 1;
        }
    }
    r
}

/// The pieces of `s` between the occurrences of `sep`, as `str::split` with
/// a character separator gives them (an empty text gives one empty piece).
pub open spec fn split_on(s: Seq<char>, sep: char) -> Seq<Seq<char>>
    decreases s.len(),
{
    if s.len() == 0 {
        seq![Seq::empty()]
    } else {
        let parts = split_on(s.drop_last(), sep);
        if s.last() == sep {
            parts.push(Seq::empty())
        } else {
            parts.update(parts.len() - 1, parts.last().push(s.last()))
        }
    }
}

/// `split_on` never gives an empty list of pieces.
pub proof fn lemma_split_on_nonempty(s: Seq<char>, sep: char)
    ensures
        split_on(s, sep).len() >= 1,
    decreases s.len(),
{
    if s.len() > 0 {
        lemma_split_on_nonempty(s.drop_last(), sep);
    }
}

/// Appending text without the separator extends the last piece.
pub proof fn lemma_split_on_extend(x: Seq<char>, y: Seq<char>, sep: char)
    requires
        !y.contains(sep),
    ensures
        split_on(x + y, sep) == split_on(x, sep).update(
            split_on(x, sep).len() - 1,
            split_on(x, sep).last() + y,
        ),
    decreases y.len(),
{
    lemma_split_on_nonempty(x, sep);
    if y.len() == 0 {
        assert(x + y =~= x);
        assert(split_on(x, sep).last() + y =~= split_on(x, sep).last());
        assert(split_on(x, sep).update(split_on(x, sep).len() - 1, split_on(x, sep).last())
            =~= split_on(x, sep));
    } else {
        let y1 = y.drop_last();
        assert(!y1.contains(sep)) by {
            if y1.contains(sep) {
                let k = choose|k: int| 0 <= k < y1.len() && y1[k] == sep;
                assert(y[k] == sep);
            }
        }
        assert(y.last() != sep) by {
            assert(y[y.len() - 1] == y.last());
        }
        lemma_split_on_extend(x, y1, sep);
        assert((x + y).drop_last() =~= x + y1);
        assert((x + y).last() == y.last());
        let parts = split_on(x, sep);
        assert(parts.last() + y =~= (parts.last() + y1).push(y.last()));
        assert(split_on(x + y, sep) =~= parts.update(parts.len() - 1, parts.last() + y));
    }
}

/// A separator starts a new, empty piece.
pub proof fn lemma_split_on_separator(x: Seq<char>, sep: char)
    ensures
        split_on(x + seq![sep], sep) == split_on(x, sep).push(Seq::empty()),
{
    assert((x + seq![sep]).drop_last() =~= x);
}

/// Pieces joined by the separator, none of them holding it, are split back
/// into themselves.
pub proof fn lemma_split_joined(pieces: Seq<Seq<char>>, sep: char)
    requires
        pieces.len() >= 1,
        forall|i: int| 0 <= i < pieces.len() ==> !(#[trigger] pieces[i]).contains(sep),
    ensures
        split_on(join_with(pieces, sep), sep) == pieces,
    decreases pieces.len(),
{
    if pieces.len() == 1 {
        assert(join_with(pieces, sep) == pieces[0]);
        lemma_split_on_extend(Seq::empty(), pieces[0], sep);
        assert(Seq::<char>::empty() + pieces[0] =~= pieces[0]);
        assert(seq![Seq::<char>::empty()].update(0, Seq::<char>::empty() + pieces[0]) =~= pieces);
    } else {
        let init = pieces.drop_last();
        assert forall|i: int| 0 <= i < init.len() implies !(#[trigger] init[i]).contains(sep) by {
            assert(init[i] == pieces[i]);
        }
        lemma_split_joined(init, sep);
        let joined = join_with(init, sep);
        lemma_split_on_separator(joined, sep);
        assert(!pieces.last().contains(sep)) by {
            assert(pieces[pieces.len() - 1] == pieces.last());
        }
        lemma_split_on_extend(joined + seq![sep], pieces.last(), sep);
        assert(Seq::<char>::empty() + pieces.last() =~= pieces.last());
        assert(init.push(Seq::empty()).update(init.len() as int, pieces.last()) =~= pieces);
    }
}

/// Pieces joined by a separator character.
pub open spec fn join_with(pieces: Seq<Seq<char>>, sep: char) -> Seq<char>
    decreases pieces.len(),
{
    if pieces.len() <= 1 {
        if pieces.len() == 1 { pieces[0] } else { Seq::empty() }
    } else {
        join_with(pieces.drop_last(), sep) + seq![sep] + pieces.last()
    }
}

/// The views of a list of strings.
pub open spec fn views(v: Seq<String>) -> Seq<Seq<char>> {
    v.map_values(|s: String| s@)
}

/// `s.split(sep)`, collected into owned strings.
pub fn split_text(s: &str, sep: char) -> (r: Vec<String>)
    ensures
        views(r@) == split_on(s@, sep),
{
    let sc = chars_of(s);
    let n = sc.len();
    let mut done: Vec<String> = Vec::new();
    let mut cur = String::new();
    let mut i: usize = 0;
    while i < n
        invariant
            sc@ == s@,
            n == sc@.len(),
            i <= n,
            views(done@).push(cur@) == split_on(s@.take(i as int), sep),
        decreases n - i,
    {
        proof {
            lemma_split_on_nonempty(s@.take(i as int), sep);
        }
        let c = sc[i];
        assert(s@.take(i + 1).drop_last() =~= s@.take(i as int));
        let ghost prev = split_on(s@.take(i as int), sep);
        if c == sep {
            let finished = cur;
            done.push(finished);
            cur = String::new();
            assert(views(done@).push(cur@) =~= prev.push(Seq::empty()));
        } else {
            push_char(&mut cur, c);
            assert(views(done@).push(cur@) =~= prev.update(prev.len() - 1, prev.last().push(c)));
        }
        i = i + 1;
    }
    assert(s@.take(n as int) =~= s@);
    done.push(cur);
    done
}

/// The encoding of a concatenation is the concatenation of the encodings.
pub proof fn lemma_utf8_concat(a: Seq<char>, b: Seq<char>)
    ensures
        utf8(a + b) == utf8(a) + utf8(b),
    decreases a.len(),
{
    if a.len() == 0 {
        assert(a + b =~= b);
    } else {
        lemma_utf8_concat(a.drop_first(), b);
        assert((a + b).drop_first() =~= a.drop_first() + b);
        assert((a + b)[0] == a[0]);
    }
}

/// The encoding of a single ASCII character is its code.
pub proof fn lemma_utf8_ascii_char(a: char)
    requires
        (a as u32) < 0x80,
    ensures
        utf8(seq![a]) == seq![a as u8],
{
    assert(is_ascii_chars(seq![a]));
    is_ascii_chars_encode_utf8(seq![a]);
}

/// The byte of an ASCII character occurs in no other character's encoding.
proof fn lemma_scalar_lacks_ascii(c: char, a: char, k: int)
    requires
        (a as u32) < 0x80,
        c != a,
        0 <= k < encode_scalar(c as u32).len(),
    ensures
        encode_scalar(c as u32)[k] != a as u8,
{
    let v = c as u32;
    let b = a as u32;
    if has_width_1_encoding(v) {
        assert(((v & 0x7f) as u8) as u32 == v) by (bit_vector)
            requires v <= 0x7f;
        assert((b as u8) as u32 == b) by (bit_vector)
            requires b < 0x80;
    } else {
        assert(forall|x: u8| #[trigger] (0x80u8 | x) >= 0x80u8) by (bit_vector);
        assert(forall|x: u8| #[trigger] (0xC0u8 | x) >= 0x80u8) by (bit_vector);
        assert(forall|x: u8| #[trigger] (0xE0u8 | x) >= 0x80u8) by (bit_vector);
        assert(forall|x: u8| #[trigger] (0xF0u8 | x) >= 0x80u8) by (bit_vector);
        assert((b as u8) < 0x80u8) by (bit_vector)
            requires b < 0x80;
    }
}

/// A text without the ASCII character `a` has no byte `a` in its encoding.
pub proof fn lemma_utf8_lacks_ascii(s: Seq<char>, a: char)
    requires
        (a as u32) < 0x80,
        !s.contains(a),
    ensures
        forall|i: int| 0 <= i < utf8(s).len() ==> #[trigger] utf8(s)[i] != a as u8,
    decreases s.len(),
{
    if s.len() > 0 {
        let rest = s.drop_first();
        assert(!rest.contains(a)) by {
            if rest.contains(a) {
                let k = choose|k: int| 0 <= k < rest.len() && rest[k] == a;
                assert(s[k + 1] == a);
            }
        }
        lemma_utf8_lacks_ascii(rest, a);
        assert(s[0] != a);
        let head = encode_scalar(s[0] as u32);
        assert(utf8(s) == head + utf8(rest));
        assert forall|i: int| 0 <= i < utf8(s).len() implies #[trigger] utf8(s)[i] != a as u8 by {
            if i < head.len() {
                lemma_scalar_lacks_ascii(s[0], a, i);
            } else {
                assert(utf8(s)[i] == utf8(rest)[i - head.len()]);
            }
        }
    }
}

/// A one-byte needle occurs exactly where its byte is.
pub proof fn lemma_occurs_at_one_byte(hay: Seq<u8>, b: u8, j: int)
    ensures
        occurs_at(hay, seq![b], j) <==> (0 <= j < hay.len() && hay[j] == b),
{
    if 0 <= j < hay.len() {
        if hay[j] == b {
            assert(hay.subrange(j, j + 1) =~= seq![b]);
        } else {
            assert(hay.subrange(j, j + 1)[0] != seq![b][0]);
        }
    }
}

/// In `p + [a] + rest`, where `p` lacks the ASCII character `a`, the first
/// `a` is the one right after `p`.
pub proof fn lemma_find_ascii_after(p: Seq<char>, a: char, rest: Seq<char>)
    requires
        (a as u32) < 0x80,
        !p.contains(a),
    ensures
        find_in(p + seq![a] + rest, seq![a]) == Some(utf8(p).len() as int),
{
    let s = p + seq![a] + rest;
    lemma_utf8_concat(p + seq![a], rest);
    lemma_utf8_concat(p, seq![a]);
    lemma_utf8_ascii_char(a);
    lemma_utf8_lacks_ascii(p, a);
    let bytes = utf8(s);
    let n = utf8(p).len() as int;
    assert(bytes == utf8(p) + seq![a as u8] + utf8(rest));
    assert(bytes[n] == a as u8);
    lemma_occurs_at_one_byte(bytes, a as u8, n);
    assert forall|j: int| 0 <= j < n implies !occurs_at(bytes, utf8(seq![a]), j) by {
        lemma_occurs_at_one_byte(bytes, a as u8, j);
        assert(bytes[j] == utf8(p)[j]);
    }
    lemma_first_occurrence_unique(bytes, utf8(seq![a]), n);
}

/// A text without the ASCII character `a` does not contain it as a needle.
pub proof fn lemma_find_absent_ascii(s: Seq<char>, a: char)
    requires
        (a as u32) < 0x80,
        !s.contains(a),
    ensures
        find_in(s, seq![a]) is None,
{
    lemma_utf8_ascii_char(a);
    lemma_utf8_lacks_ascii(s, a);
    assert forall|j: int| 0 <= j implies !occurs_at(utf8(s), utf8(seq![a]), j) by {
        lemma_occurs_at_one_byte(utf8(s), a as u8, j);
    }
    lemma_no_occurrence(utf8(s), utf8(seq![a]));
}

/// The end of the first text is a character boundary of a concatenation.
pub proof fn lemma_boundary_at_join(x: Seq<char>, y: Seq<char>)
    ensures
        is_char_boundary(utf8(x + y), utf8(x).len() as int),
{
    lemma_utf8_concat(x, y);
    let bytes = utf8(x + y);
    let n = utf8(x).len() as int;
    if y.len() == 0 {
        assert(x + y =~= x);
        is_char_boundary_start_end_of_seq(bytes);
    } else {
        let yb = utf8(y);
        assert(yb == encode_scalar(y[0] as u32) + utf8(y.drop_first()));
        assert(yb.len() > 0);
        assert(valid_first_scalar(yb));
        assert(bytes[n] == yb[0]);
        is_char_boundary_iff_not_is_continuation_byte(bytes, n);
    }
}

/// A first occurrence in a prefix is the first occurrence in the whole.
pub proof fn lemma_find_in_prefix(prefix: Seq<u8>, rest: Seq<u8>, needle: Seq<u8>, k: int)
    requires
        find_first(prefix, needle) == Some(k),
    ensures
        find_first(prefix + rest, needle) == Some(k),
{
    let hay = prefix + rest;
    let kk = choose|i: int| is_first_occurrence(prefix, needle, i);
    assert(exists|i: int| is_first_occurrence(prefix, needle, i));
    assert(kk == k);
    assert(hay.subrange(k, k + needle.len()) =~= prefix.subrange(k, k + needle.len()));
    assert forall|j: int| 0 <= j < k implies !occurs_at(hay, needle, j) by {
        assert(hay.subrange(j, j + needle.len()) =~= prefix.subrange(j, j + needle.len()));
        assert(!occurs_at(prefix, needle, j));
    }
    lemma_first_occurrence_unique(hay, needle, k);
}

/// Wherever the needle occurs, there is a leftmost occurrence at or before it.
pub proof fn lemma_first_exists(hay: Seq<u8>, needle: Seq<u8>, j: int)
    requires
        occurs_at(hay, needle, j),
    ensures
        find_first(hay, needle) matches Some(k) && k <= j && is_first_occurrence(hay, needle, k),
    decreases j,
{
    if exists|k: int| 0 <= k < j && occurs_at(hay, needle, k) {
        let k = choose|k: int| 0 <= k < j && occurs_at(hay, needle, k);
        lemma_first_exists(hay, needle, k);
    } else {
        lemma_first_occurrence_unique(hay, needle, j);
    }
}

/// A text that holds `p` as a run of characters contains `p`.
pub proof fn lemma_contains_of_subrange(s: Seq<char>, p: Seq<char>, i: int)
    requires
        0 <= i,
        i + p.len() <= s.len(),
        s.subrange(i, i + p.len()) == p,
    ensures
        contains(s, p),
{
    let pre = s.take(i);
    let post = s.skip(i + p.len());
    assert(s =~= pre + p + post);
    lemma_utf8_concat(pre + p, post);
    lemma_utf8_concat(pre, p);
    let bytes = utf8(s);
    let n = utf8(pre).len() as int;
    assert(bytes.subrange(n, n + utf8(p).len()) =~= utf8(p));
    lemma_first_exists(bytes, utf8(p), n);
}

/// A text in which the pattern's first character never occurs is left as it
/// is by `replace_all`.
pub proof fn lemma_replace_absent(s: Seq<char>, pat: Seq<char>, rep: Seq<char>)
    requires
        pat.len() > 0,
        !s.contains(pat[0]),
    ensures
        replace_all(s, pat, rep) == s,
    decreases s.len(),
{
    if s.len() >= pat.len() {
        assert(s.take(pat.len() as int)[0] != pat[0]);
        let rest = s.skip(1);
        assert(!rest.contains(pat[0])) by {
            if rest.contains(pat[0]) {
                let k = choose|k: int| 0 <= k < rest.len() && rest[k] == pat[0];
                assert(s[k + 1] == pat[0]);
            }
        }
        lemma_replace_absent(rest, pat, rep);
        assert(seq![s[0]] + rest =~= s);
    }
}

/// The view of a `Result` of two strings.
pub open spec fn result_view(r: Result<String, String>) -> Result<Seq<char>, Seq<char>> {
    match r {
        Ok(v) => Ok(v@),
        Err(e) => Err(e@),
    }
}

/// An owned copy of a text.
pub fn owned(s: &str) -> (r: String)
    ensures
        r@ == s@,
{
    s.to_owned()
}

/// The concatenation of two texts.
pub fn concat(a: &str, b: &str) -> (r: String)
    ensures
        r@ == a@ + b@,
{
    let mut r = owned(a);
    r.append(b);
    r
}

} // verus!
