//! Extraction of the room and sender fields from the frames that
//! matrix-commander prints for each message it receives, such as
//! `Message received for room fdn [!abc:matrix.org] | sender Alice [@alice:fdn.fr] | ...`.

use vstd::prelude::*;
use vstd::utf8::*;
use crate::text::{
    byte_slice, find_in, lemma_boundary_at_join, lemma_find_ascii_after, lemma_find_in_prefix,
    lemma_found_ascii_char, lemma_utf8_ascii_char, lemma_utf8_concat, owned, result_view,
    slice_to_string, str_find, utf8,
};

verus! {

broadcast use vstd::utf8::group_utf8_lib;

/// What `clean_room_id` gives for a frame part: the text between the first
/// `[` and the first `]`, which must not be empty.
pub open spec fn spec_clean_room_id(raw: Seq<char>) -> Result<Seq<char>, Seq<char>> {
    match find_in(raw, "["@) {
        None => Err("ERROR: clean_room_id start"@),
        Some(open) => match find_in(raw, "]"@) {
            None => Err("ERROR: clean_room_id end"@),
            Some(close) => if open + 1 >= close {
                Err("ERROR: clean_room_id matrix-commander output unreadable"@)
            } else {
                Ok(byte_slice(raw, open + 1, close))
            },
        },
    }
}

/// What `clean_sender_id` gives for a frame part: the text between the first
/// `[` and the first `]`, possibly empty.
pub open spec fn spec_clean_sender_id(raw: Seq<char>) -> Result<Seq<char>, Seq<char>> {
    match find_in(raw, "["@) {
        None => Err("ERROR: clean_sender_id start"@),
        Some(open) => match find_in(raw, "]"@) {
            None => Err("ERROR: clean_sender_id end"@),
            Some(close) => if open + 1 > close {
                Err("ERROR: clean_sender_id matrix-commander output unreadable"@)
            } else {
                Ok(byte_slice(raw, open + 1, close))
            },
        },
    }
}

/// The text that runs from `skip` bytes after the first `keyword` up to the
/// byte before the first `[`; the byte offsets `(start, end)` of that text,
/// when both markers occur.
pub open spec fn label_bounds(raw: Seq<char>, keyword: Seq<char>, skip: int) -> Option<(int, int)> {
    match (find_in(raw, keyword), find_in(raw, "["@)) {
        (Some(k), Some(b)) => Some((k + skip, b - 1)),
        _ => None,
    }
}

/// The frame part can be cut as `clean_room_origin` (empty cut refused) and
/// `clean_sender_name` (empty cut allowed) cut it: when both markers occur,
/// the `[` is not the first byte, and a cut that is made falls on character
/// boundaries. On other inputs the cut panics.
pub open spec fn label_cut_ok(raw: Seq<char>, keyword: Seq<char>, skip: int, allow_empty: bool) -> bool {
    match label_bounds(raw, keyword, skip) {
        Some((start, end)) => {
            &&& end >= 0
            &&& (start < end || (allow_empty && start == end)) ==> is_char_boundary(utf8(raw), start)
                && is_char_boundary(utf8(raw), end)
        },
        None => true,
    }
}

/// What `clean_room_origin` gives: the text from five bytes after `room`
/// (the keyword and the space after it) to the byte before `[`.
pub open spec fn spec_clean_room_origin(raw: Seq<char>) -> Result<Seq<char>, Seq<char>> {
    match find_in(raw, "room"@) {
        None => Err("ERROR: clean_room_origin start"@),
        Some(k) => match find_in(raw, "["@) {
            None => Err("ERROR: clean_room_origin end"@),
            Some(b) => if k + 5 >= b - 1 {
                Err("ERROR: clean_room_origin matrix-commander output unreadable"@)
            } else {
                Ok(byte_slice(raw, k + 5, b - 1))
            },
        },
    }
}

/// What `clean_sender_name` gives: the text from seven bytes after `sender`
/// to the byte before `[`, possibly empty.
pub open spec fn spec_clean_sender_name(raw: Seq<char>) -> Result<Seq<char>, Seq<char>> {
    match find_in(raw, "sender"@) {
        None => Err("ERROR: clean_sender_name start"@),
        Some(k) => match find_in(raw, "["@) {
            None => Err("ERROR: clean_sender_name end"@),
            Some(b) => if k + 7 > b - 1 {
                Err("clean_sender_name ERROR: Matrix-Commander output unreadable"@)
            } else {
                Ok(byte_slice(raw, k + 7, b - 1))
            },
        },
    }
}

/// Isolates the room id of a frame part: the text between `[` and `]`.
pub fn clean_room_id(raw_room_id: String) -> (r: Result<String, String>)
    ensures
        result_view(r) == spec_clean_room_id(raw_room_id@),
{
    proof {
        reveal_strlit("[");
        reveal_strlit("]");
    }
    let raw = raw_room_id.as_str();
    let debut = match str_find(raw, "[") {
        Some(debut_index) => {
            proof { lemma_found_ascii_char(raw@, "["@, debut_index as int); }
            debut_index + 1
        },
        None => return Err(owned("ERROR: clean_room_id start")),
    };
    let fin = match str_find(raw, "]") {
        Some(fin_index) => {
            proof { lemma_found_ascii_char(raw@, "]"@, fin_index as int); }
            fin_index
        },
        None => return Err(owned("ERROR: clean_room_id end")),
    };
    if debut >= fin {
        Err(owned("ERROR: clean_room_id matrix-commander output unreadable"))
    } else {
        Ok(slice_to_string(raw, debut, fin))
    }
}

/// Isolates the sender id of a frame part: the text between `[` and `]`.
pub fn clean_sender_id(raw_sender_id: String) -> (r: Result<String, String>)
    ensures
        result_view(r) == spec_clean_sender_id(raw_sender_id@),
{
    proof {
        reveal_strlit("[");
        reveal_strlit("]");
    }
    let raw = raw_sender_id.as_str();
    let debut = match str_find(raw, "[") {
        Some(debut_index) => {
            proof { lemma_found_ascii_char(raw@, "["@, debut_index as int); }
            debut_index + 1
        },
        None => return Err(owned("ERROR: clean_sender_id start")),
    };
    let fin = match str_find(raw, "]") {
        Some(fin_index) => {
            proof { lemma_found_ascii_char(raw@, "]"@, fin_index as int); }
            fin_index
        },
        None => return Err(owned("ERROR: clean_sender_id end")),
    };
    if debut > fin {
        Err(owned("ERROR: clean_sender_id matrix-commander output unreadable"))
    } else {
        Ok(slice_to_string(raw, debut, fin))
    }
}

/// Isolates the room name of a frame part: the text after `room ` and
/// before ` [`.
pub fn clean_room_origin(raw_room_origin: String) -> (r: Result<String, String>)
    requires
        label_cut_ok(raw_room_origin@, "room"@, 5, false),
    ensures
        result_view(r) == spec_clean_room_origin(raw_room_origin@),
{
    proof {
        reveal_strlit("[");
    }
    let raw = raw_room_origin.as_str();
    let keyword_index = match str_find(raw, "room") {
        Some(debut_index) => debut_index,
        None => return Err(owned("ERROR: clean_room_origin start")),
    };
    let fin = match str_find(raw, "[") {
        Some(fin_index) => {
            proof { lemma_found_ascii_char(raw@, "["@, fin_index as int); }
            fin_index - 1
        },
        None => return Err(owned("ERROR: clean_room_origin end")),
    };
    // `keyword_index + 5 >= fin`, compared without overflow
    if keyword_index >= fin || fin - keyword_index <= 5 {
        Err(owned("ERROR: clean_room_origin matrix-commander output unreadable"))
    } else {
        Ok(slice_to_string(raw, keyword_index + 5, fin))
    }
}

/// Isolates the sender name of a frame part: the text after `sender ` and
/// before ` [`.
pub fn clean_sender_name(raw_sender_name: String) -> (r: Result<String, String>)
    requires
        label_cut_ok(raw_sender_name@, "sender"@, 7, true),
    ensures
        result_view(r) == spec_clean_sender_name(raw_sender_name@),
{
    proof {
        reveal_strlit("[");
    }
    let raw = raw_sender_name.as_str();
    let keyword_index = match str_find(raw, "sender") {
        Some(debut_index) => debut_index,
        None => return Err(owned("ERROR: clean_sender_name start")),
    };
    let fin = match str_find(raw, "[") {
        Some(fin_index) => {
            proof { lemma_found_ascii_char(raw@, "["@, fin_index as int); }
            fin_index - 1
        },
        None => return Err(owned("ERROR: clean_sender_name end")),
    };
    // `keyword_index + 7 > fin`, compared without overflow
    if keyword_index > fin || fin - keyword_index < 7 {
        Err(owned("clean_sender_name ERROR: Matrix-Commander output unreadable"))
    } else {
        Ok(slice_to_string(raw, keyword_index + 7, fin))
    }
}

/// Neither of two texts holds `a`, so their concatenation does not.
pub proof fn lemma_concat_lacks(x: Seq<char>, y: Seq<char>, a: char)
    requires
        !x.contains(a),
        !y.contains(a),
    ensures
        !(x + y).contains(a),
{
    if (x + y).contains(a) {
        let k = choose|k: int| 0 <= k < (x + y).len() && (x + y)[k] == a;
        if k < x.len() {
            assert(x[k] == a);
        } else {
            assert(y[k - x.len()] == a);
        }
    }
}

/// The bracketed text of `before + [ + id + ] + after`, where `before`
/// holds no bracket and `id` no `]`: the byte offsets of both brackets, and
/// the text between them is `id`.
pub proof fn lemma_bracketed_id(before: Seq<char>, id: Seq<char>, after: Seq<char>)
    requires
        !before.contains('['),
        !before.contains(']'),
        !id.contains(']'),
    ensures
        ({
            let raw = before + seq!['['] + id + seq![']'] + after;
            let open = utf8(before).len() as int;
            let close = open + 1 + utf8(id).len();
            &&& find_in(raw, seq!['[']) == Some(open)
            &&& find_in(raw, seq![']']) == Some(close)
            &&& byte_slice(raw, open + 1, close) == id
            &&& (id.len() > 0 <==> open + 1 < close)
        }),
{
    let raw = before + seq!['['] + id + seq![']'] + after;
    let open = utf8(before).len() as int;
    let close = open + 1 + utf8(id).len();
    let head = before + seq!['['] + id;
    assert(find_in(raw, seq!['[']) == Some(open)) by {
        assert(raw =~= before + seq!['['] + (id + seq![']'] + after));
        lemma_find_ascii_after(before, '[', id + seq![']'] + after);
    }
    assert(utf8(head).len() == close) by {
        lemma_utf8_concat(before + seq!['['], id);
        lemma_utf8_concat(before, seq!['[']);
        lemma_utf8_ascii_char('[');
    }
    assert(find_in(raw, seq![']']) == Some(close)) by {
        assert(!seq!['['].contains(']')) by {
            if seq!['['].contains(']') {
                assert(seq!['['][0] == ']');
            }
        }
        lemma_concat_lacks(before, seq!['['], ']');
        lemma_concat_lacks(before + seq!['['], id, ']');
        lemma_find_ascii_after(head, ']', after);
    }
    assert(byte_slice(raw, open + 1, close) == id) by {
        lemma_utf8_concat(head + seq![']'], after);
        lemma_utf8_concat(head, seq![']']);
        lemma_utf8_concat(before + seq!['['], id);
        lemma_utf8_concat(before, seq!['[']);
        lemma_utf8_ascii_char('[');
        lemma_utf8_ascii_char(']');
        let bytes = utf8(raw);
        assert(bytes =~= utf8(before) + seq![0x5bu8] + utf8(id) + seq![0x5du8] + utf8(after));
        assert(bytes.subrange(open + 1, close) =~= utf8(id));
    }
    if id.len() > 0 {
        assert(utf8(id).len() >= encode_scalar(id[0] as u32).len());
    }
}

/// The literal brackets as one-character texts.
pub proof fn lemma_bracket_literals()
    ensures
        "["@ == seq!['['],
        "]"@ == seq![']'],
{
    reveal_strlit("[");
    reveal_strlit("]");
    assert("["@ =~= seq!['[']);
    assert("]"@ =~= seq![']']);
}

/// A room id written between brackets after a text without brackets, as
/// matrix-commander writes `room <name> [<id>]`, is read back as it was
/// written.
pub proof fn law_room_id_read_back(before: Seq<char>, id: Seq<char>, after: Seq<char>)
    requires
        !before.contains('['),
        !before.contains(']'),
        !id.contains(']'),
        id.len() > 0,
    ensures
        spec_clean_room_id(before + "["@ + id + "]"@ + after) == Ok::<Seq<char>, Seq<char>>(id),
{
    lemma_bracket_literals();
    lemma_bracketed_id(before, id, after);
}

/// A sender id written between brackets after a text without brackets is
/// read back as it was written, the empty id included.
pub proof fn law_sender_id_read_back(before: Seq<char>, id: Seq<char>, after: Seq<char>)
    requires
        !before.contains('['),
        !before.contains(']'),
        !id.contains(']'),
    ensures
        spec_clean_sender_id(before + "["@ + id + "]"@ + after) == Ok::<Seq<char>, Seq<char>>(id),
{
    lemma_bracket_literals();
    lemma_bracketed_id(before, id, after);
}

/// The label of `before + keyword + " " + name + " [" + rest`, where the
/// keyword first occurs right after `before` and no `[` comes before the
/// bracket: its byte bounds, its text, and that both bounds are character
/// boundaries.
proof fn lemma_label(before: Seq<char>, keyword: Seq<char>, name: Seq<char>, rest: Seq<char>, skip: int)
    requires
        utf8(keyword).len() + 1 == skip,
        find_in(before + keyword, keyword) == Some(utf8(before).len() as int),
        !(before + keyword + seq![' '] + name + seq![' ']).contains('['),
    ensures
        ({
            let raw = before + keyword + seq![' '] + name + seq![' '] + seq!['['] + rest;
            let start = utf8(before).len() + skip;
            let end = start + utf8(name).len();
            &&& label_bounds(raw, keyword, skip) == Some((start, end))
            &&& byte_slice(raw, start, end) == name
            &&& is_char_boundary(utf8(raw), start)
            &&& is_char_boundary(utf8(raw), end)
            &&& find_in(raw, keyword) == Some(utf8(before).len() as int)
            &&& (name.len() > 0 <==> start < end)
        }),
{
    let kw1 = before + keyword;
    let kw2 = kw1 + seq![' '];
    let nm = kw2 + name;
    let head = nm + seq![' '];
    let raw = head + seq!['['] + rest;
    let start = utf8(before).len() + skip;
    let end = start + utf8(name).len();
    lemma_utf8_ascii_char(' ');
    lemma_utf8_ascii_char('[');
    assert(utf8(kw2).len() == start) by {
        lemma_utf8_concat(kw1, seq![' ']);
        lemma_utf8_concat(before, keyword);
    }
    assert(utf8(nm).len() == end) by {
        lemma_utf8_concat(kw2, name);
    }
    assert(utf8(head).len() == end + 1) by {
        lemma_utf8_concat(nm, seq![' ']);
    }
    assert(find_in(raw, seq!['[']) == Some(end + 1)) by {
        lemma_find_ascii_after(head, '[', rest);
    }
    assert(find_in(raw, keyword) == Some(utf8(before).len() as int)) by {
        let tail = seq![' '] + name + seq![' '] + seq!['['] + rest;
        assert(raw =~= kw1 + tail);
        lemma_utf8_concat(kw1, tail);
        lemma_find_in_prefix(utf8(kw1), utf8(tail), utf8(keyword), utf8(before).len() as int);
    }
    assert(is_char_boundary(utf8(raw), start)) by {
        let tail = name + seq![' '] + seq!['['] + rest;
        assert(raw =~= kw2 + tail);
        lemma_boundary_at_join(kw2, tail);
    }
    assert(is_char_boundary(utf8(raw), end)) by {
        let tail = seq![' '] + seq!['['] + rest;
        assert(raw =~= nm + tail);
        lemma_boundary_at_join(nm, tail);
    }
    assert(byte_slice(raw, start, end) == name) by {
        let tail = seq![' '] + seq!['['] + rest;
        assert(raw =~= kw2 + name + tail);
        lemma_utf8_concat(kw2 + name, tail);
        lemma_utf8_concat(kw2, name);
        assert(utf8(raw).subrange(start, end) =~= utf8(name));
    }
    if name.len() > 0 {
        assert(utf8(name).len() >= encode_scalar(name[0] as u32).len());
    }
    assert("["@ == seq!['[']) by {
        lemma_bracket_literals();
    }
}

/// The literals of the room label.
proof fn lemma_room_literals()
    ensures
        "room "@ == "room"@ + seq![' '],
        " ["@ == seq![' '] + seq!['['],
        utf8("room"@).len() == 4,
{
    reveal_strlit("room ");
    reveal_strlit("room");
    reveal_strlit(" [");
    assert("room "@ =~= "room"@ + seq![' ']);
    assert(" ["@ =~= seq![' '] + seq!['[']);
    assert(is_ascii_chars("room"@));
}

/// The literals of the sender label.
proof fn lemma_sender_literals()
    ensures
        "sender "@ == "sender"@ + seq![' '],
        " ["@ == seq![' '] + seq!['['],
        utf8("sender"@).len() == 6,
{
    reveal_strlit("sender ");
    reveal_strlit("sender");
    reveal_strlit(" [");
    assert("sender "@ =~= "sender"@ + seq![' ']);
    assert(" ["@ =~= seq![' '] + seq!['[']);
    assert(is_ascii_chars("sender"@));
}

/// A room name written as matrix-commander writes it, `room <name> [`, after
/// a text in which `room` does not occur first, is read back as it was
/// written, and reading it makes no panicking cut.
pub proof fn law_room_origin_read_back(before: Seq<char>, name: Seq<char>, rest: Seq<char>)
    requires
        find_in(before + "room"@, "room"@) == Some(utf8(before).len() as int),
        !(before + "room "@ + name + " "@).contains('['),
        name.len() > 0,
    ensures
        spec_clean_room_origin(before + "room "@ + name + " ["@ + rest) == Ok::<Seq<char>, Seq<char>>(name),
        label_cut_ok(before + "room "@ + name + " ["@ + rest, "room"@, 5, false),
{
    lemma_room_literals();
    reveal_strlit(" ");
    assert(" "@ =~= seq![' ']);
    let raw = before + "room "@ + name + " ["@ + rest;
    assert(raw =~= before + "room"@ + seq![' '] + name + seq![' '] + seq!['['] + rest);
    assert(before + "room "@ + name + " "@ =~= before + "room"@ + seq![' '] + name + seq![' ']);
    lemma_label(before, "room"@, name, rest, 5);
}

/// A sender name written as matrix-commander writes it, `sender <name> [`,
/// after a text in which `sender` does not occur first, is read back as it
/// was written, the empty name included, and reading it makes no panicking
/// cut.
pub proof fn law_sender_name_read_back(before: Seq<char>, name: Seq<char>, rest: Seq<char>)
    requires
        find_in(before + "sender"@, "sender"@) == Some(utf8(before).len() as int),
        !(before + "sender "@ + name + " "@).contains('['),
    ensures
        spec_clean_sender_name(before + "sender "@ + name + " ["@ + rest) == Ok::<Seq<char>, Seq<char>>(name),
        label_cut_ok(before + "sender "@ + name + " ["@ + rest, "sender"@, 7, true),
{
    lemma_sender_literals();
    reveal_strlit(" ");
    assert(" "@ =~= seq![' ']);
    let raw = before + "sender "@ + name + " ["@ + rest;
    assert(raw =~= before + "sender"@ + seq![' '] + name + seq![' '] + seq!['['] + rest);
    assert(before + "sender "@ + name + " "@ =~= before + "sender"@ + seq![' '] + name + seq![' ']);
    lemma_label(before, "sender"@, name, rest, 7);
}

} // verus!
