//! Disk usage read from the output of `df`.

use vstd::prelude::*;
use vstd::utf8::*;
use crate::text::{
    byte_slice, chars_of, owned, push_char, slice_to_string, split_on, split_text, utf8, views,
};
use crate::pattern::{Pattern, regex_matches};

verus! {

broadcast use vstd::utf8::group_utf8_lib;

/// `c` is an ASCII decimal digit.
pub open spec fn is_digit(c: char) -> bool {
    '0' <= c && c <= '9'
}

/// The decimal value of a sequence of digits.
pub open spec fn decimal_value(d: Seq<char>) -> int
    decreases d.len(),
{
    if d.len() == 0 {
        0
    } else {
        decimal_value(d.drop_last()) * 10 + ((d.last() as int) - ('0' as int))
    }
}

/// The sign and the digits of a number text: an optional leading `-` or `+`
/// and what follows it.
pub open spec fn sign_and_digits(s: Seq<char>) -> (bool, Seq<char>) {
    if s.len() > 0 && s[0] == '-' {
        (true, s.skip(1))
    } else if s.len() > 0 && s[0] == '+' {
        (false, s.skip(1))
    } else {
        (false, s)
    }
}

/// What `str::parse::<i32>` gives: an optional sign followed by at least one
/// decimal digit and nothing else, whose value fits an `i32`.
pub open spec fn spec_parse_i32(s: Seq<char>) -> Option<i32> {
    let (negative, digits) = sign_and_digits(s);
    if digits.len() == 0 || !(forall|i: int| 0 <= i < digits.len() ==> is_digit(#[trigger] digits[i])) {
        None
    } else {
        let v = if negative { -decimal_value(digits) } else { decimal_value(digits) };
        if i32::MIN <= v <= i32::MAX {
            Some(v as i32)
        } else {
            None
        }
    }
}

/// Decimal values never decrease when digits are appended.
proof fn lemma_decimal_value_nonnegative(d: Seq<char>)
    requires
        forall|i: int| 0 <= i < d.len() ==> is_digit(#[trigger] d[i]),
    ensures
        decimal_value(d) >= 0,
    decreases d.len(),
{
    if d.len() > 0 {
        lemma_decimal_value_nonnegative(d.drop_last());
    }
}

/// The integer that a text holds, as `str::parse::<i32>` reads it.
pub fn parse_i32(s: &str) -> (r: Option<i32>)
    ensures
        r == spec_parse_i32(s@),
{
    let c = chars_of(s);
    let n = c.len();
    let mut start: usize = 0;
    let mut negative = false;
    if n > 0 && c[0] == '-' {
        negative = true;
        start = 1;
    } else if n > 0 && c[0] == '+' {
        start = 1;
    }
    let ghost digits = sign_and_digits(s@).1;
    assert(digits =~= c@.skip(start as int));
    assert(negative == sign_and_digits(s@).0);
    if start == n {
        return None;
    }
    let cap: i64 = 2147483649;
    let mut acc: i64 = 0;
    let mut i: usize = start;
    while i < n
        invariant
            c@ == s@,
            n == c@.len(),
            start <= i <= n,
            digits == c@.skip(start as int),
            digits == sign_and_digits(s@).1,
            negative == sign_and_digits(s@).0,
            start < n,
            cap == 2147483649,
            forall|j: int| 0 <= j < i - start ==> is_digit(#[trigger] digits[j]),
            0 <= acc <= cap,
            acc == (if decimal_value(digits.take(i - start)) >= cap { cap as int } else { decimal_value(digits.take(i - start)) }),
        decreases n - i,
    {
        let ch = c[i];
        if !('0' <= ch && ch <= '9') {
            assert(digits[i - start] == ch);
            assert(!is_digit(digits[i - start]));
            assert(!(forall|j: int| 0 <= j < digits.len() ==> is_digit(#[trigger] digits[j])));
            return None;
        }
        let d: i64 = ((ch as u32) - ('0' as u32)) as i64;
        let ghost prefix = digits.take(i - start);
        let ghost next = digits.take(i + 1 - start);
        assert(next.drop_last() =~= prefix);
        assert(next.last() == ch);
        proof {
            lemma_decimal_value_nonnegative(prefix);
        }
        let grown = acc * 10 + d;
        acc = if grown >= cap { cap } else { grown };
        i = i + 1;
    }
    assert(digits.take(n - start) =~= digits);
    if negative {
        if acc > 2147483648 {
            None
        } else {
            Some((0 - acc) as i32)
        }
    } else {
        if acc > 2147483647 {
            None
        } else {
            Some(acc as i32)
        }
    }
}

/// The decimal digit character of `d` (below ten).
pub open spec fn digit_char(d: nat) -> char {
    ((d + 48) as u8) as char
}

/// The decimal writing of a natural number, without leading zeros.
pub open spec fn decimal_text(n: nat) -> Seq<char>
    decreases n,
{
    if n < 10 {
        seq![digit_char(n)]
    } else {
        decimal_text(n / 10).push(digit_char(n % 10))
    }
}

/// The decimal writing of an integer, as `i32`'s `Display` writes it.
pub open spec fn int_text(v: int) -> Seq<char> {
    if v < 0 {
        seq!['-'] + decimal_text((-v) as nat)
    } else {
        decimal_text(v as nat)
    }
}

fn push_decimal(s: &mut String, n: u64)
    ensures
        final(s)@ == old(s)@ + decimal_text(n as nat),
    decreases n,
{
    if n >= 10 {
        push_decimal(s, n / 10);
    }
    let d: u8 = (n % 10) as u8;
    push_char(s, (d + 48) as char);
    assert(old(s)@ + decimal_text(n as nat) =~= s@);
}

/// The decimal writing of an `i32`.
pub fn i32_to_text(v: i32) -> (r: String)
    ensures
        r@ == int_text(v as int),
{
    let mut r = String::new();
    if v < 0 {
        push_char(&mut r, '-');
        let magnitude: u64 = (0 - (v as i64)) as u64;
        push_decimal(&mut r, magnitude);
    } else {
        push_decimal(&mut r, v as u64);
    }
    r
}

/// The non-empty pieces of a list, in order.
pub open spec fn nonempty_pieces(pieces: Seq<Seq<char>>) -> Seq<Seq<char>>
    decreases pieces.len(),
{
    if pieces.len() == 0 {
        Seq::empty()
    } else if pieces.last().len() > 0 {
        nonempty_pieces(pieces.drop_last()).push(pieces.last())
    } else {
        nonempty_pieces(pieces.drop_last())
    }
}

/// The fields of the `df` lines that the disk pattern matches: the non-empty
/// space-separated pieces of each such line, in order.
pub open spec fn disk_fields(lines: Seq<Seq<char>>, disk: Seq<char>) -> Seq<Seq<char>>
    decreases lines.len(),
{
    if lines.len() == 0 {
        Seq::empty()
    } else {
        let before = disk_fields(lines.drop_last(), disk);
        if regex_matches(disk, lines.last()) {
            before + nonempty_pieces(split_on(lines.last(), ' '))
        } else {
            before
        }
    }
}

/// The fields of the lines of `df_output` that `disk` matches.
pub fn collect_disk_fields(df_output: &str, disk: &Pattern) -> (fields: Vec<String>)
    ensures
        views(fields@) == disk_fields(split_on(df_output@, '\n'), disk.source()),
{
    let disk_list = split_text(df_output, '\n');
    let ghost lines = views(disk_list@);
    let mut disk_status: Vec<String> = Vec::new();
    let n = disk_list.len();
    let mut i: usize = 0;
    while i < n
        invariant
            n == disk_list@.len(),
            lines == views(disk_list@),
            i <= n,
            views(disk_status@) == disk_fields(lines.take(i as int), disk.source()),
        decreases n - i,
    {
        let line = &disk_list[i];
        assert(lines.take(i + 1).drop_last() =~= lines.take(i as int));
        assert(lines.take(i + 1).last() == line@);
        if disk.is_match(line.as_str()) {
            let data_list = split_text(line.as_str(), ' ');
            let ghost pieces = views(data_list@);
            let ghost before = views(disk_status@);
            let m = data_list.len();
            let mut k: usize = 0;
            while k < m
                invariant
                    m == data_list@.len(),
                    pieces == views(data_list@),
                    k <= m,
                    views(disk_status@) == before + nonempty_pieces(pieces.take(k as int)),
                decreases m - k,
            {
                let data = &data_list[k];
                assert(pieces.take(k + 1).drop_last() =~= pieces.take(k as int));
                assert(pieces.take(k + 1).last() == data@);
                if data.as_str().unicode_len() != 0 {
                    assert(nonempty_pieces(pieces.take(k + 1)) == nonempty_pieces(pieces.take(k as int)).push(data@));
                    let ghost old_fields = views(disk_status@);
                    disk_status.push(data.clone());
                    assert(views(disk_status@) =~= old_fields.push(data@));
                    assert(views(disk_status@) =~= before + nonempty_pieces(pieces.take(k + 1)));
                } else {
                    assert(views(disk_status@) =~= before + nonempty_pieces(pieces.take(k + 1)));
                }
                k = k + 1;
            }
            assert(pieces.take(m as int) =~= pieces);
        }
        i = i + 1;
    }
    assert(lines.take(n as int) =~= lines);
    disk_status
}

/// The usage field (the fifth) can be cut before its last character.
pub open spec fn usage_cut_ok(fields: Seq<Seq<char>>) -> bool {
    &&& fields.len() > 4
    &&& utf8(fields[4]).len() >= 1
    &&& is_char_boundary(utf8(fields[4]), utf8(fields[4]).len() - 1)
}

/// What `usage_from_fields` gives: the fifth field without its last byte
/// (the `%` sign), read as an integer.
pub open spec fn spec_usage(fields: Seq<Seq<char>>) -> Result<i32, Seq<char>> {
    let raw = fields[4];
    match spec_parse_i32(byte_slice(raw, 0, utf8(raw).len() - 1)) {
        Some(v) => Ok(v),
        None => Err("ERROR: convert usage in Integer"@),
    }
}

/// The used percentage in the fifth field, such as `42%`.
pub fn usage_from_fields(fields: &Vec<String>) -> (r: Result<i32, String>)
    requires
        usage_cut_ok(views(fields@)),
    ensures
        match r {
            Ok(v) => spec_usage(views(fields@)) == Ok::<i32, Seq<char>>(v),
            Err(e) => spec_usage(views(fields@)) == Err::<i32, Seq<char>>(e@),
        },
{
    let raw_usage = fields[4].as_str();
    assert(views(fields@)[4] == raw_usage@);
    let len = raw_usage.as_bytes().len();
    proof {
        is_char_boundary_start_end_of_seq(utf8(raw_usage@));
    }
    let clean_usage = slice_to_string(raw_usage, 0, len - 1);
    match parse_i32(clean_usage.as_str()) {
        Some(usage) => Ok(usage),
        None => Err(owned("ERROR: convert usage in Integer")),
    }
}

/// What `disk_usage` gives for the output of `df` and a disk pattern:
/// `Some` of the used percentage of the disk, or of an error when the pattern
/// does not compile or the usage is not a number; `None` where the fields are
/// too few or the usage field cannot be cut.
pub open spec fn spec_disk_usage(df_output: Seq<char>, disk: Seq<char>) -> Option<Result<i32, Seq<char>>> {
    if !crate::pattern::regex_compiles(disk) {
        Some(Err("ERROR: fail to build system regex"@))
    } else {
        let fields = disk_fields(split_on(df_output, '\n'), disk);
        if usage_cut_ok(fields) {
            Some(spec_usage(fields))
        } else {
            None
        }
    }
}

/// The used percentage of the disks that `disk` matches in the output of
/// `df`; `None` where the fields are too few or the usage field cannot be cut
/// before its last character.
pub fn disk_usage(df_output: &str, disk: &str) -> (r: Option<Result<i32, String>>)
    ensures
        match r {
            Some(Ok(v)) => spec_disk_usage(df_output@, disk@) == Some(Ok::<i32, Seq<char>>(v)),
            Some(Err(e)) => spec_disk_usage(df_output@, disk@) == Some(Err::<i32, Seq<char>>(e@)),
            None => spec_disk_usage(df_output@, disk@) is None,
        },
{
    let disk_re = match Pattern::new(disk) {
        Some(p) => p,
        None => return Some(Err(owned("ERROR: fail to build system regex"))),
    };
    let disk_status = collect_disk_fields(df_output, &disk_re);
    if disk_status.len() <= 4 {
        return None;
    }
    let usage = disk_status[4].as_str();
    assert(views(disk_status@)[4] == usage@);
    let len = usage.as_bytes().len();
    if len == 0 || !usage.is_char_boundary(len - 1) {
        return None;
    }
    Some(usage_from_fields(&disk_status))
}

} // verus!
