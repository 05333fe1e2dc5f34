//! Ping lists built from lists of Matrix user ids such as `@alice:fdn.fr`.

use vstd::prelude::*;
use vstd::utf8::*;
use vstd::string::StrSliceExecFns;
use crate::text::{
    byte_slice, find_in, lemma_find_absent_ascii, lemma_find_ascii_after, lemma_found_ascii_char,
    lemma_utf8_ascii_char, lemma_utf8_concat, owned, result_view, slice_to_string, str_find, utf8,
    views,
};
use crate::matrix::{lemma_bracket_literals, lemma_bracketed_id, lemma_concat_lacks};

verus! {

broadcast use vstd::utf8::group_utf8_lib;

/// The part of a user id that a ping list shows: from byte `start` up to the
/// first `:`; `None` for an id without `:`.
pub open spec fn id_name(id: Seq<char>, start: int) -> Option<Seq<char>> {
    match find_in(id, ":"@) {
        Some(f) => Some(byte_slice(id, start, f)),
        None => None,
    }
}

/// The id can be cut from byte `start` to its first `:` without panicking.
pub open spec fn id_cut_ok(id: Seq<char>, start: int) -> bool {
    find_in(id, ":"@) matches Some(f) ==> start <= f && is_char_boundary(utf8(id), start)
}

/// Every id of the list can be cut from byte `start`.
pub open spec fn ids_cut_ok(ids: Seq<Seq<char>>, start: int) -> bool {
    forall|i: int| 0 <= i < ids.len() ==> #[trigger] id_cut_ok(ids[i], start)
}

/// The names of `ids` (cut from byte `start`), each followed by `, `, in list
/// order, leaving out ids without `:` and names equal to `exclude`.
pub open spec fn listed_names(ids: Seq<Seq<char>>, start: int, exclude: Option<Seq<char>>) -> Seq<char>
    decreases ids.len(),
{
    if ids.len() == 0 {
        Seq::empty()
    } else {
        let before = listed_names(ids.drop_last(), start, exclude);
        match id_name(ids.last(), start) {
            Some(name) => if exclude == Some(name) {
                before
            } else {
                before + name + ", "@
            },
            None => before,
        }
    }
}

/// `ping: ` followed by the listed names, without the last two characters
/// (the trailing `, `, or the space of `ping: ` when no name is listed).
pub open spec fn spec_ping_list(ids: Seq<Seq<char>>, start: int, exclude: Option<Seq<char>>) -> Seq<char> {
    let raw = "ping: "@ + listed_names(ids, start, exclude);
    raw.subrange(0, raw.len() - 2)
}

/// Builds the ping list of `ids`: the names (cut from byte `start` of each id
/// up to its `:`) joined by `, ` after `ping: `, leaving out `exclude`.
pub fn ping_list(ids: &Vec<String>, start: usize, exclude: Option<&String>) -> (r: String)
    requires
        ids_cut_ok(views(ids@), start as int),
    ensures
        r@ == spec_ping_list(views(ids@), start as int, match exclude {
            Some(e) => Some(e@),
            None => None,
        }),
{
    proof {
        reveal_strlit("ping: ");
        reveal_strlit(", ");
        reveal_strlit(":");
    }
    let ghost ex: Option<Seq<char>> = match exclude {
        Some(e) => Some(e@),
        None => None,
    };
    let ghost all = views(ids@);
    let mut raw = owned("ping: ");
    let n = ids.len();
    let mut i: usize = 0;
    while i < n
        invariant
            n == ids@.len(),
            i <= n,
            all == views(ids@),
            ids_cut_ok(all, start as int),
            ex == (match exclude {
                Some(e) => Some(e@),
                None => None::<Seq<char>>,
            }),
            raw@ == "ping: "@ + listed_names(all.take(i as int), start as int, ex),
        decreases n - i,
    {
        let x = &ids[i];
        let ghost xv = x@;
        assert(all[i as int] == xv);
        assert(all.take(i + 1).drop_last() =~= all.take(i as int));
        assert(all.take(i + 1).last() == xv);
        match str_find(x.as_str(), ":") {
            Some(fin_mark) => {
                proof {
                    reveal_strlit(":");
                    assert(id_cut_ok(all[i as int], start as int));
                    lemma_found_ascii_char(xv, ":"@, fin_mark as int);
                }
                let name = slice_to_string(x.as_str(), start, fin_mark);
                let keep = match exclude {
                    Some(e) => !(name == *e),
                    None => true,
                };
                if keep {
                    raw.append(name.as_str());
                    raw.append(", ");
                }
            },
            None => {},
        }
        i = i + 1;
    }
    assert(all.take(n as int) =~= all);
    let len = raw.as_str().unicode_len();
    owned(raw.as_str().substring_char(0, len - 2))
}

/// The ping list of the admins of `my_list` other than `sender`: their names
/// without the leading `@` and the server part.
pub fn get_admin_list(sender: &String, my_list: &Vec<String>) -> (r: Result<String, String>)
    requires
        ids_cut_ok(views(my_list@), 1),
    ensures
        r matches Ok(list) && list@ == spec_ping_list(views(my_list@), 1, Some(sender@)),
{
    Ok(ping_list(my_list, 1, Some(sender)))
}

/// The text inside the first `[` ... `]` of `s`, when the first `[` comes
/// before the first `]`.
pub open spec fn first_bracketed(s: Seq<char>) -> Option<Seq<char>> {
    match (find_in(s, "["@), find_in(s, "]"@)) {
        (Some(open), Some(close)) => if open < close {
            Some(byte_slice(s, open + 1, close))
        } else {
            None
        },
        _ => None,
    }
}

fn bracketed(s: &str) -> (r: Option<String>)
    ensures
        match r {
            Some(t) => first_bracketed(s@) == Some(t@),
            None => first_bracketed(s@) is None,
        },
{
    proof {
        reveal_strlit("[");
        reveal_strlit("]");
    }
    match (str_find(s, "["), str_find(s, "]")) {
        (Some(open), Some(close)) => {
            if open < close {
                proof {
                    lemma_found_ascii_char(s@, "["@, open as int);
                    lemma_found_ascii_char(s@, "]"@, close as int);
                }
                Some(slice_to_string(s, open + 1, close))
            } else {
                None
            }
        },
        _ => None,
    }
}

/// What `get_left_arg` gives for an admin command such as
/// `botbot admin add [trigger word] [answer]`: the first bracketed text.
pub open spec fn spec_get_left_arg(command: Seq<char>) -> Result<Seq<char>, Seq<char>> {
    match first_bracketed(command) {
        Some(t) => Ok(t),
        None => Err("no [trigger word] in the admin command"@),
    }
}

/// What `get_right_arg` gives for an admin command: the first bracketed text
/// after the first `]`.
pub open spec fn spec_get_right_arg(command: Seq<char>) -> Result<Seq<char>, Seq<char>> {
    match find_in(command, "]"@) {
        Some(close) => match first_bracketed(byte_slice(command, close + 1, utf8(command).len() as int)) {
            Some(t) => Ok(t),
            None => Err("no [answer] in the admin command"@),
        },
        None => Err("no [answer] in the admin command"@),
    }
}

/// The trigger word of an admin command: the text of its first `[...]`.
pub fn get_left_arg(command: &String) -> (r: Result<String, String>)
    ensures
        result_view(r) == spec_get_left_arg(command@),
{
    match bracketed(command.as_str()) {
        Some(t) => Ok(t),
        None => Err(owned("no [trigger word] in the admin command")),
    }
}

/// The answer of an admin command: the text of its second `[...]`.
pub fn get_right_arg(command: &String) -> (r: Result<String, String>)
    ensures
        result_view(r) == spec_get_right_arg(command@),
{
    proof {
        reveal_strlit("]");
    }
    let c = command.as_str();
    match str_find(c, "]") {
        Some(close) => {
            proof {
                lemma_found_ascii_char(c@, "]"@, close as int);
                is_char_boundary_start_end_of_seq(utf8(c@));
            }
            let rest = slice_to_string(c, close + 1, c.as_bytes().len());
            match bracketed(rest.as_str()) {
                Some(t) => Ok(t),
                None => Err(owned("no [answer] in the admin command")),
            }
        },
        None => Err(owned("no [answer] in the admin command")),
    }
}

/// The trigger word of an admin command is read back as written: in
/// `before [t] after`, where `before` holds no bracket and `t` no `]`, the
/// trigger word is the whole of `t`, spaces included.
pub proof fn law_left_arg_read_back(before: Seq<char>, t: Seq<char>, after: Seq<char>)
    requires
        !before.contains('['),
        !before.contains(']'),
        !t.contains(']'),
    ensures
        spec_get_left_arg(before + "["@ + t + "]"@ + after) == Ok::<Seq<char>, Seq<char>>(t),
{
    lemma_bracket_literals();
    lemma_bracketed_id(before, t, after);
}

/// The answer of an admin command is read back as written: in
/// `before [t] mid [a] after`, where `before` and `mid` hold no bracket and
/// `t` and `a` no `]`, the answer is the whole of `a`.
pub proof fn law_right_arg_read_back(
    before: Seq<char>,
    t: Seq<char>,
    mid: Seq<char>,
    a: Seq<char>,
    after: Seq<char>,
)
    requires
        !before.contains('['),
        !before.contains(']'),
        !t.contains(']'),
        !mid.contains('['),
        !mid.contains(']'),
        !a.contains(']'),
    ensures
        spec_get_right_arg(before + "["@ + t + "]"@ + mid + "["@ + a + "]"@ + after)
            == Ok::<Seq<char>, Seq<char>>(a),
{
    lemma_bracket_literals();
    let rest = mid + "["@ + a + "]"@ + after;
    let head = before + "["@ + t + "]"@;
    let command = before + "["@ + t + "]"@ + mid + "["@ + a + "]"@ + after;
    assert(command =~= before + seq!['['] + t + seq![']'] + rest);
    lemma_bracketed_id(before, t, rest);
    let close: int = (utf8(before).len() + 1 + utf8(t).len()) as int;
    assert(command =~= head + rest);
    lemma_utf8_concat(head, rest);
    assert(utf8(head).len() == close + 1) by {
        lemma_utf8_concat(before + seq!['['] + t, seq![']']);
        lemma_utf8_concat(before + seq!['['], t);
        lemma_utf8_concat(before, seq!['[']);
        lemma_utf8_ascii_char('[');
        lemma_utf8_ascii_char(']');
    }
    assert(utf8(command).subrange(close + 1, utf8(command).len() as int) =~= utf8(rest));
    assert(byte_slice(command, close + 1, utf8(command).len() as int) == rest);
    lemma_bracketed_id(mid, a, after);
}

/// The name of a user id such as `@alice:fdn.fr`: cut from the end of a
/// prefix without `:`, it is all of the text up to the first `:`.
pub proof fn law_id_name_read_back(prefix: Seq<char>, name: Seq<char>, server: Seq<char>)
    requires
        !prefix.contains(':'),
        !name.contains(':'),
    ensures
        id_name(prefix + name + ":"@ + server, utf8(prefix).len() as int) == Some(name),
{
    reveal_strlit(":");
    assert(":"@ =~= seq![':']);
    let id = prefix + name + ":"@ + server;
    lemma_concat_lacks(prefix, name, ':');
    lemma_find_ascii_after(prefix + name, ':', server);
    lemma_utf8_concat(prefix + name, seq![':'] + server);
    lemma_utf8_concat(prefix, name);
    assert(id =~= (prefix + name) + (seq![':'] + server));
    let a = utf8(prefix).len() as int;
    let b = utf8(prefix + name).len() as int;
    assert(utf8(id).subrange(a, b) =~= utf8(name));
}

/// The names listed for two lists one after the other are those of the
/// first list followed by those of the second: every id counts, wherever it
/// stands in the list.
pub proof fn law_listed_names_concat(
    ids1: Seq<Seq<char>>,
    ids2: Seq<Seq<char>>,
    start: int,
    exclude: Option<Seq<char>>,
)
    ensures
        listed_names(ids1 + ids2, start, exclude)
            == listed_names(ids1, start, exclude) + listed_names(ids2, start, exclude),
    decreases ids2.len(),
{
    if ids2.len() == 0 {
        assert(ids1 + ids2 =~= ids1);
        assert(listed_names(ids1, start, exclude) + Seq::<char>::empty() =~= listed_names(ids1, start, exclude));
    } else {
        assert((ids1 + ids2).drop_last() =~= ids1 + ids2.drop_last());
        assert((ids1 + ids2).last() == ids2.last());
        law_listed_names_concat(ids1, ids2.drop_last(), start, exclude);
        let l1 = listed_names(ids1, start, exclude);
        let l2 = listed_names(ids2.drop_last(), start, exclude);
        match id_name(ids2.last(), start) {
            Some(name) => {
                assert(l1 + l2 + name + ", "@ =~= l1 + (l2 + name + ", "@));
            },
            None => {},
        }
    }
}

/// Texts joined by `, `: each but the last followed by `, `, then the last.
pub open spec fn joined_by_comma(names: Seq<Seq<char>>) -> Seq<char> {
    names.drop_last().map_values(|n: Seq<char>| n + ", "@).flatten() + names.last()
}

/// Names of ids that are all listed, each followed by `, `.
proof fn lemma_listed_all(ids: Seq<Seq<char>>, names: Seq<Seq<char>>, start: int, exclude: Option<Seq<char>>)
    requires
        ids.len() == names.len(),
        forall|i: int| 0 <= i < ids.len() ==> id_name(#[trigger] ids[i], start) == Some(names[i]),
        forall|i: int| 0 <= i < ids.len() ==> exclude != Some(#[trigger] names[i]),
    ensures
        listed_names(ids, start, exclude) == names.map_values(|n: Seq<char>| n + ", "@).flatten(),
    decreases ids.len(),
{
    let f = |n: Seq<char>| n + ", "@;
    if ids.len() == 0 {
        assert(names.map_values(f) =~= Seq::<Seq<char>>::empty());
    } else {
        let k = ids.len() - 1;
        assert forall|i: int| 0 <= i < k implies id_name(#[trigger] ids.drop_last()[i], start)
            == Some(names.drop_last()[i]) by {
            assert(ids.drop_last()[i] == ids[i]);
        }
        assert forall|i: int| 0 <= i < k implies exclude != Some(#[trigger] names.drop_last()[i]) by {
            assert(names.drop_last()[i] == names[i]);
        }
        lemma_listed_all(ids.drop_last(), names.drop_last(), start, exclude);
        assert(names.map_values(f) =~= names.drop_last().map_values(f).push(f(names.last())));
        names.drop_last().map_values(f).lemma_flatten_push(f(names.last()));
        assert(id_name(ids[k], start) == Some(names[k]));
        assert(exclude != Some(names[k]));
    }
}

/// The ping list of ids that all have a name, none of them left out, is
/// `ping: ` followed by every one of their names, in list order, joined by
/// `, `.
pub proof fn law_ping_list_names(ids: Seq<Seq<char>>, names: Seq<Seq<char>>, start: int, exclude: Option<Seq<char>>)
    requires
        ids.len() == names.len(),
        names.len() > 0,
        forall|i: int| 0 <= i < ids.len() ==> id_name(#[trigger] ids[i], start) == Some(names[i]),
        forall|i: int| 0 <= i < ids.len() ==> exclude != Some(#[trigger] names[i]),
    ensures
        spec_ping_list(ids, start, exclude) == "ping: "@ + joined_by_comma(names),
{
    reveal_strlit(", ");
    let f = |n: Seq<char>| n + ", "@;
    lemma_listed_all(ids, names, start, exclude);
    assert(names.map_values(f) =~= names.drop_last().map_values(f).push(f(names.last())));
    names.drop_last().map_values(f).lemma_flatten_push(f(names.last()));
    let body = names.drop_last().map_values(f).flatten();
    let raw = "ping: "@ + listed_names(ids, start, exclude);
    assert(raw =~= "ping: "@ + body + names.last() + ", "@);
    assert(raw.subrange(0, raw.len() - 2) =~= "ping: "@ + body + names.last());
    assert(joined_by_comma(names) == body + names.last());
}

/// Leaving out a name gives the names listed for the ids that do not have
/// it.
pub proof fn law_listed_names_leave_out(ids: Seq<Seq<char>>, start: int, name: Seq<char>)
    ensures
        listed_names(ids, start, Some(name))
            == listed_names(ids.filter(|id: Seq<char>| id_name(id, start) != Some(name)), start, None),
    decreases ids.len(),
{
    let keep = |id: Seq<char>| id_name(id, start) != Some(name);
    if ids.len() == 0 {
        assert(ids.filter(keep) =~= Seq::<Seq<char>>::empty()) by {
            reveal(Seq::filter);
        }
    } else {
        law_listed_names_leave_out(ids.drop_last(), start, name);
        assert(ids =~= ids.drop_last().push(ids.last()));
        ids.drop_last().lemma_filter_push(ids.last(), keep);
        let kept = ids.drop_last().filter(keep);
        if keep(ids.last()) {
            assert(kept.push(ids.last()).drop_last() =~= kept);
        }
    }
}

/// An admin command without `[` has no trigger word.
pub proof fn law_left_arg_missing(command: Seq<char>)
    requires
        !command.contains('['),
    ensures
        spec_get_left_arg(command) == Err::<Seq<char>, Seq<char>>("no [trigger word] in the admin command"@),
{
    lemma_bracket_literals();
    lemma_find_absent_ascii(command, '[');
}

/// An admin command without `]` has no answer.
pub proof fn law_right_arg_missing(command: Seq<char>)
    requires
        !command.contains(']'),
    ensures
        spec_get_right_arg(command) == Err::<Seq<char>, Seq<char>>("no [answer] in the admin command"@),
{
    lemma_bracket_literals();
    lemma_find_absent_ascii(command, ']');
}

} // verus!
