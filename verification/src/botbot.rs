//! Reading one line of matrix-commander output: the frame's fields, the
//! message they describe, and what in the message calls the bot.

use vstd::prelude::*;
use vstd::utf8::*;
use crate::text::{
    ascii_lowercase, concat, contains, lemma_contains_of_subrange, find_in, join_with, lemma_split_joined, owned, split_on,
    split_text, str_contains, str_find, to_ascii_lowercase, utf8, views,
};
use crate::matrix::{
    clean_room_id, clean_room_origin, clean_sender_id, clean_sender_name, label_cut_ok,
    law_room_id_read_back, law_room_origin_read_back, law_sender_id_read_back,
    law_sender_name_read_back, spec_clean_room_id, spec_clean_room_origin, spec_clean_sender_id,
    spec_clean_sender_name,
};
use crate::message::{Message, ticket_url};
use crate::pattern::{Pattern, option_view, regex_first_match, regex_matches};

verus! {

broadcast use vstd::utf8::group_utf8_lib;

/// The fields of a message, as texts.
pub struct MessageView {
    pub room_origin: Seq<char>,
    pub room_id: Seq<char>,
    pub sender_id: Seq<char>,
    pub sender_name: Seq<char>,
    pub m_message: Seq<char>,
}

/// The view of a message.
pub open spec fn message_view(m: Message) -> MessageView {
    MessageView {
        room_origin: m.room_origin@,
        room_id: m.room_id@,
        sender_id: m.sender_id@,
        sender_name: m.sender_name@,
        m_message: m.m_message@,
    }
}

/// What in a message calls the bot.
#[derive(PartialEq, Eq, Clone, Debug)]
pub enum Trigger {
    /// The message names the bot.
    Botbot,
    /// The message carries a ticket number in the tickets room: `number` is
    /// the text the ticket pattern first matches in the message (`None` when
    /// it matches the lower-case text but not the message itself).
    Ticket { number: Option<String> },
    /// Nothing calls the bot.
    Nothing,
}

/// The view of a `Trigger`.
pub enum TriggerView {
    Botbot,
    Ticket { number: Option<Seq<char>> },
    Nothing,
}

/// The view of a trigger.
pub open spec fn trigger_view(t: Trigger) -> TriggerView {
    match t {
        Trigger::Botbot => TriggerView::Botbot,
        Trigger::Ticket { number } => TriggerView::Ticket { number: option_view(number) },
        Trigger::Nothing => TriggerView::Nothing,
    }
}

/// What `clean_trame` gives for the four parts of a frame: the room id and
/// room name of the first part, the sender id and sender name of the second,
/// and the fourth part as the message; the first error otherwise.
pub open spec fn spec_clean_trame(parts: Seq<Seq<char>>) -> Result<MessageView, Seq<char>> {
    match spec_clean_room_id(parts[0]) {
        Err(e) => Err(e),
        Ok(room_id) => match spec_clean_room_origin(parts[0]) {
            Err(e) => Err(e),
            Ok(room_origin) => match spec_clean_sender_id(parts[1]) {
                Err(e) => Err(e),
                Ok(sender_id) => match spec_clean_sender_name(parts[1]) {
                    Err(e) => Err(e),
                    Ok(sender_name) => Ok(MessageView { room_origin, room_id, sender_id, sender_name, m_message: parts[3] }),
                },
            },
        },
    }
}

/// The cuts that `clean_trame` makes on the parts do not panic.
pub open spec fn trame_cut_ok(parts: Seq<Seq<char>>) -> bool {
    &&& spec_clean_room_id(parts[0]) is Ok ==> label_cut_ok(parts[0], "room"@, 5, false)
    &&& (spec_clean_room_id(parts[0]) is Ok && spec_clean_room_origin(parts[0]) is Ok
        && spec_clean_sender_id(parts[1]) is Ok) ==> label_cut_ok(parts[1], "sender"@, 7, true)
}

/// The view of a result of `clean_trame`.
pub open spec fn trame_view(r: Result<Message, String>) -> Result<MessageView, Seq<char>> {
    match r {
        Ok(m) => Ok(message_view(m)),
        Err(e) => Err(e@),
    }
}

/// Reads the message of the four parts of a frame: room id and room name from
/// the first part, sender id and sender name from the second, the message
/// from the fourth.
pub fn clean_trame(raw_data: &Vec<String>) -> (r: Result<Message, String>)
    requires
        raw_data@.len() >= 4,
        trame_cut_ok(views(raw_data@)),
    ensures
        trame_view(r) == spec_clean_trame(views(raw_data@)),
{
    let ghost parts = views(raw_data@);
    assert(parts[0] == raw_data@[0]@ && parts[1] == raw_data@[1]@ && parts[3] == raw_data@[3]@);
    let room_id = match clean_room_id(raw_data[0].clone()) {
        Ok(v) => v,
        Err(e) => return Err(e),
    };
    let room_origin = match clean_room_origin(raw_data[0].clone()) {
        Ok(v) => v,
        Err(e) => return Err(e),
    };
    let sender_id = match clean_sender_id(raw_data[1].clone()) {
        Ok(v) => v,
        Err(e) => return Err(e),
    };
    let sender_name = match clean_sender_name(raw_data[1].clone()) {
        Ok(v) => v,
        Err(e) => return Err(e),
    };
    Ok(Message { room_origin, room_id, sender_id, sender_name, m_message: raw_data[3].clone() })
}

/// The second character of `s`, or a space.
pub open spec fn second_char(s: Seq<char>) -> char {
    if s.len() > 1 {
        s[1]
    } else {
        ' '
    }
}

/// A frame that `botbot_read` reads: a line of four `|`-separated parts whose
/// fourth part does not start (after its leading space) with `>`.
pub open spec fn is_message_frame(line: Seq<char>) -> bool {
    let parts = split_on(line, '|');
    parts.len() == 4 && second_char(ascii_lowercase(parts[3])) != '>'
}

/// `botbot_read` reads the line without a panicking cut.
pub open spec fn frame_cut_ok(line: Seq<char>) -> bool {
    is_message_frame(line) ==> trame_cut_ok(split_on(line, '|'))
}

/// What calls the bot in the message `m` of a frame whose fourth part, in
/// lower case, is `raw_message`: the word `botbot`, else a ticket number
/// (`ticket_pattern`) in the `fdn-tickets-internal` room, with the number
/// that the pattern first matches in the message.
pub open spec fn spec_trigger(raw_message: Seq<char>, m: MessageView, ticket_pattern: Seq<char>) -> TriggerView {
    if contains(raw_message, "botbot"@) {
        TriggerView::Botbot
    } else if regex_matches(ticket_pattern, raw_message) && m.room_origin == "fdn-tickets-internal"@ {
        TriggerView::Ticket { number: regex_first_match(ticket_pattern, m.m_message) }
    } else {
        TriggerView::Nothing
    }
}

/// What `botbot_read` gives for a line: `None` for a line that is not a
/// message frame or whose fields cannot be read; otherwise the message and
/// what calls the bot in it.
pub open spec fn spec_botbot_read(line: Seq<char>, ticket_pattern: Seq<char>) -> Option<(MessageView, TriggerView)> {
    let parts = split_on(line, '|');
    if !is_message_frame(line) {
        None
    } else {
        match spec_clean_trame(parts) {
            Err(_) => None,
            Ok(m) => Some((m, spec_trigger(ascii_lowercase(parts[3]), m, ticket_pattern))),
        }
    }
}

/// The view of a result of `botbot_read`.
pub open spec fn read_view(r: Option<(Message, Trigger)>) -> Option<(MessageView, TriggerView)> {
    match r {
        Some((m, t)) => Some((message_view(m), trigger_view(t))),
        None => None,
    }
}

/// Reads one line of matrix-commander output: the message it carries and
/// what in it calls the bot.
pub fn botbot_read(line_from_buffer: &String, ticket_regex: &Pattern) -> (r: Option<(Message, Trigger)>)
    requires
        frame_cut_ok(line_from_buffer@),
    ensures
        read_view(r) == spec_botbot_read(line_from_buffer@, ticket_regex.source()),
{
    let raw_data = split_text(line_from_buffer.as_str(), '|');
    if raw_data.len() != 4 {
        return None;
    }
    let raw_message = to_ascii_lowercase(raw_data[3].as_str());
    let raw_message_first_char = if raw_message.as_str().unicode_len() > 1 {
        raw_message.as_str().get_char(1)
    } else {
        ' '
    };
    if raw_message_first_char == '>' {
        return None;
    }
    let incoming_message = match clean_trame(&raw_data) {
        Ok(m) => m,
        Err(_) => return None,
    };
    let trigger = if str_contains(raw_message.as_str(), "botbot") {
        Trigger::Botbot
    } else if ticket_regex.is_match(raw_message.as_str())
        && incoming_message.room_origin == owned("fdn-tickets-internal") {
        Trigger::Ticket { number: ticket_regex.first_match(incoming_message.m_message.as_str()) }
    } else {
        Trigger::Nothing
    };
    Some((incoming_message, trigger))
}

fn label_can_be_cut(raw: &str, keyword: &str, skip: usize, allow_empty: bool) -> (b: bool)
    requires
        skip <= 8,
    ensures
        b == label_cut_ok(raw@, keyword@, skip as int, allow_empty),
{
    match (str_find(raw, keyword), str_find(raw, "[")) {
        (Some(k), Some(open)) => {
            if open == 0 {
                return false;
            }
            let end = open - 1;
            // `k + skip < end`, or `k + skip == end`, compared without overflow
            let cut = k <= end && (end - k > skip || (allow_empty && end - k == skip));
            if cut {
                raw.is_char_boundary(k + skip) && raw.is_char_boundary(end)
            } else {
                true
            }
        },
        _ => true,
    }
}

/// The line can be given to `botbot_read`: reading it makes no panicking cut.
pub fn frame_can_be_read(line: &String) -> (b: bool)
    ensures
        b == frame_cut_ok(line@),
{
    let raw_data = split_text(line.as_str(), '|');
    if raw_data.len() != 4 {
        return true;
    }
    let ghost parts = views(raw_data@);
    assert(parts[0] == raw_data@[0]@ && parts[1] == raw_data@[1]@ && parts[3] == raw_data@[3]@);
    let raw_message = to_ascii_lowercase(raw_data[3].as_str());
    let second = if raw_message.as_str().unicode_len() > 1 {
        raw_message.as_str().get_char(1)
    } else {
        ' '
    };
    if second == '>' {
        return true;
    }
    if clean_room_id(raw_data[0].clone()).is_err() {
        return true;
    }
    if !label_can_be_cut(raw_data[0].as_str(), "room", 5, false) {
        return false;
    }
    if clean_room_origin(raw_data[0].clone()).is_err() || clean_sender_id(raw_data[1].clone()).is_err() {
        return true;
    }
    label_can_be_cut(raw_data[1].as_str(), "sender", 7, true)
}

/// What `conclude` gives: the reply, or the error, for the message `m`
/// according to what called the bot: the answer that thinking settled, the
/// link to the ticket number, or the error that nothing called it.
pub open spec fn spec_outcome(m: MessageView, trigger: TriggerView, answer: Result<Seq<char>, Seq<char>>) -> Result<Seq<char>, Seq<char>> {
    match trigger {
        TriggerView::Botbot => match answer {
            Ok(a) => Ok(a),
            Err(e) => Err("Message from "@ + m.sender_name + ": "@ + e),
        },
        TriggerView::Ticket { number } => Ok(ticket_url(number.unwrap_or(Seq::empty()))),
        TriggerView::Nothing => Err("Message from "@ + m.sender_name + ": No global trigger found"@),
    }
}

/// The ticket number of a ticket trigger can be linked: it was found in the
/// message, and cutting its first character does not panic.
pub open spec fn ticket_cut_ok(trigger: TriggerView) -> bool {
    trigger matches TriggerView::Ticket { number } ==> number matches Some(n) && utf8(n).len() >= 1
        && is_char_boundary(utf8(n), 1)
}

/// The console line for an outcome: the reply with its recipient, or the
/// error.
pub open spec fn console_line(m: MessageView, outcome: Result<Seq<char>, Seq<char>>) -> Seq<char> {
    match outcome {
        Ok(a) => "Botbot Message from "@ + m.sender_name + ": "@ + a,
        Err(e) => "Error: "@ + e,
    }
}

/// Concludes on a read message: the line to print on the console and, when
/// there is a reply, the phrase to say in the room; at most one phrase is
/// said per message. `answer` is what `thinking` (and the database work it
/// asks for) gave for `Trigger::Botbot`; it is not used otherwise.
pub fn conclude(m: &Message, trigger: Trigger, answer: Result<String, String>) -> (r: (String, Option<String>))
    requires
        ticket_cut_ok(trigger_view(trigger)),
    ensures
        r.0@ == console_line(message_view(*m), spec_outcome(message_view(*m), trigger_view(trigger), crate::text::result_view(answer))),
        match spec_outcome(message_view(*m), trigger_view(trigger), crate::text::result_view(answer)) {
            Ok(a) => r.1 matches Some(say) && say@ == a,
            Err(_) => r.1 is None,
        },
{
    let outcome: Result<String, String> = match trigger {
        Trigger::Botbot => match answer {
            Ok(a) => Ok(a),
            Err(e) => {
                let mut r = concat("Message from ", m.sender_name.as_str());
                r.append(": ");
                r.append(e.as_str());
                Err(r)
            },
        },
        Trigger::Ticket { number } => match number {
            Some(n) => match m.ticket(n) {
                Ok(url) => Ok(url),
                Err(e) => Err(concat("ticket: ", e.as_str())),
            },
            None => Err(owned("ticket: no ticket number")),
        },
        Trigger::Nothing => {
            let mut r = concat("Message from ", m.sender_name.as_str());
            r.append(": No global trigger found");
            Err(r)
        },
    };
    match outcome {
        Ok(a) => {
            let mut line = concat("Botbot Message from ", m.sender_name.as_str());
            line.append(": ");
            line.append(a.as_str());
            (line, Some(a))
        },
        Err(e) => (concat("Error: ", e.as_str()), None),
    }
}

/// The first part of a frame: `<before>room <room> [<room id>]<after>`.
pub open spec fn room_part(before: Seq<char>, room: Seq<char>, room_id: Seq<char>, after: Seq<char>) -> Seq<char> {
    before + "room "@ + room + " ["@ + room_id + "]"@ + after
}

/// The second part of a frame: `<before>sender <name> [<id>]<after>`.
pub open spec fn sender_part(before: Seq<char>, name: Seq<char>, id: Seq<char>, after: Seq<char>) -> Seq<char> {
    before + "sender "@ + name + " ["@ + id + "]"@ + after
}

/// A labelled part `before + keyword + " " + label + " [" + id + "]" + after`
/// whose label and id read back: the keyword first occurs right after
/// `before`, no bracket comes before the id, and the id holds no `]`.
pub open spec fn part_reads_back(before: Seq<char>, keyword: Seq<char>, label: Seq<char>, id: Seq<char>) -> bool {
    &&& find_in(before + keyword, keyword) == Some(utf8(before).len() as int)
    &&& !(before + keyword + " "@ + label + " "@).contains('[')
    &&& !(before + keyword + " "@ + label + " "@).contains(']')
    &&& !id.contains(']')
}

/// The literals of a label around its text.
proof fn lemma_part_literals(before: Seq<char>, keyword: Seq<char>, label: Seq<char>, id: Seq<char>, after: Seq<char>)
    ensures
        before + (keyword + " "@) + label + " ["@ + id + "]"@ + after
            == (before + keyword + " "@ + label + " "@) + "["@ + id + "]"@ + after,
        before + (keyword + " "@) + label + " "@ == before + keyword + " "@ + label + " "@,
{
    reveal_strlit(" [");
    reveal_strlit(" ");
    reveal_strlit("[");
    assert(" ["@ =~= " "@ + "["@);
    assert(before + (keyword + " "@) + label + " ["@ + id + "]"@ + after
        =~= (before + keyword + " "@ + label + " "@) + "["@ + id + "]"@ + after);
    assert(before + (keyword + " "@) + label + " "@ =~= before + keyword + " "@ + label + " "@);
}

/// A frame as matrix-commander prints it, whose four `|`-separated parts
/// hold the room, the sender, the time and the text, is read back into a
/// message with exactly these fields, without a panicking cut; what calls the
/// bot is then decided on the lower-case text.
pub proof fn law_frame_read_back(
    before0: Seq<char>,
    room: Seq<char>,
    room_id: Seq<char>,
    after0: Seq<char>,
    before1: Seq<char>,
    sender: Seq<char>,
    sender_id: Seq<char>,
    after1: Seq<char>,
    time: Seq<char>,
    text: Seq<char>,
    ticket_pattern: Seq<char>,
)
    requires
        part_reads_back(before0, "room"@, room, room_id),
        part_reads_back(before1, "sender"@, sender, sender_id),
        room.len() > 0,
        room_id.len() > 0,
        !room_part(before0, room, room_id, after0).contains('|'),
        !sender_part(before1, sender, sender_id, after1).contains('|'),
        !time.contains('|'),
        !text.contains('|'),
        second_char(ascii_lowercase(text)) != '>',
    ensures
        ({
            let line = join_with(
                seq![room_part(before0, room, room_id, after0), sender_part(before1, sender, sender_id, after1), time, text],
                '|',
            );
            let m = MessageView { room_origin: room, room_id, sender_id, sender_name: sender, m_message: text };
            &&& frame_cut_ok(line)
            &&& spec_botbot_read(line, ticket_pattern) == Some((m, spec_trigger(ascii_lowercase(text), m, ticket_pattern)))
        }),
{
    let p0 = room_part(before0, room, room_id, after0);
    let p1 = sender_part(before1, sender, sender_id, after1);
    let parts = seq![p0, p1, time, text];
    let line = join_with(parts, '|');
    assert forall|i: int| 0 <= i < parts.len() implies !(#[trigger] parts[i]).contains('|') by {
        if i == 0 {
            assert(parts[i] == p0);
        } else if i == 1 {
            assert(parts[i] == p1);
        } else if i == 2 {
            assert(parts[i] == time);
        } else {
            assert(parts[i] == text);
        }
    }
    lemma_split_joined(parts, '|');
    assert(split_on(line, '|') == parts);
    let room_before = before0 + "room"@ + " "@ + room + " "@;
    let sender_before = before1 + "sender"@ + " "@ + sender + " "@;
    assert("room "@ == "room"@ + " "@ && "sender "@ == "sender"@ + " "@) by {
        reveal_strlit("room ");
        reveal_strlit("room");
        reveal_strlit("sender ");
        reveal_strlit("sender");
        reveal_strlit(" ");
        assert("room "@ =~= "room"@ + " "@);
        assert("sender "@ =~= "sender"@ + " "@);
    }
    assert(spec_clean_room_id(p0) == Ok::<Seq<char>, Seq<char>>(room_id)) by {
        lemma_part_literals(before0, "room"@, room, room_id, after0);
        law_room_id_read_back(room_before, room_id, after0);
    }
    assert(spec_clean_room_origin(p0) == Ok::<Seq<char>, Seq<char>>(room)
        && label_cut_ok(p0, "room"@, 5, false)) by {
        lemma_part_literals(before0, "room"@, room, room_id, after0);
        assert(p0 =~= before0 + "room "@ + room + " ["@ + (room_id + "]"@ + after0));
        law_room_origin_read_back(before0, room, room_id + "]"@ + after0);
    }
    assert(spec_clean_sender_id(p1) == Ok::<Seq<char>, Seq<char>>(sender_id)) by {
        lemma_part_literals(before1, "sender"@, sender, sender_id, after1);
        law_sender_id_read_back(sender_before, sender_id, after1);
    }
    assert(spec_clean_sender_name(p1) == Ok::<Seq<char>, Seq<char>>(sender)
        && label_cut_ok(p1, "sender"@, 7, true)) by {
        lemma_part_literals(before1, "sender"@, sender, sender_id, after1);
        assert(p1 =~= before1 + "sender "@ + sender + " ["@ + (sender_id + "]"@ + after1));
        law_sender_name_read_back(before1, sender, sender_id + "]"@ + after1);
    }
}

/// A well-formed message frame whose text holds the word "botbot", in any
/// case and at any position, is read as a message that calls the bot.
pub proof fn law_botbot_anywhere(
    before0: Seq<char>,
    room: Seq<char>,
    room_id: Seq<char>,
    after0: Seq<char>,
    before1: Seq<char>,
    sender: Seq<char>,
    sender_id: Seq<char>,
    after1: Seq<char>,
    time: Seq<char>,
    text: Seq<char>,
    ticket_pattern: Seq<char>,
    at: int,
)
    requires
        part_reads_back(before0, "room"@, room, room_id),
        part_reads_back(before1, "sender"@, sender, sender_id),
        room.len() > 0,
        room_id.len() > 0,
        !room_part(before0, room, room_id, after0).contains('|'),
        !sender_part(before1, sender, sender_id, after1).contains('|'),
        !time.contains('|'),
        !text.contains('|'),
        second_char(ascii_lowercase(text)) != '>',
        0 <= at,
        at + 6 <= text.len(),
        ascii_lowercase(text).subrange(at, at + 6) == "botbot"@,
    ensures
        ({
            let line = join_with(
                seq![room_part(before0, room, room_id, after0), sender_part(before1, sender, sender_id, after1), time, text],
                '|',
            );
            let m = MessageView { room_origin: room, room_id, sender_id, sender_name: sender, m_message: text };
            spec_botbot_read(line, ticket_pattern) == Some((m, TriggerView::Botbot))
        }),
{
    law_frame_read_back(before0, room, room_id, after0, before1, sender, sender_id, after1, time, text, ticket_pattern);
    reveal_strlit("botbot");
    lemma_contains_of_subrange(ascii_lowercase(text), "botbot"@, at);
}

/// A well-formed message frame whose text does not hold "botbot" calls the
/// bot only in the fdn-tickets-internal room, where the ticket pattern
/// matches the lower-case text: the trigger is then the ticket number, the
/// first match of the pattern in the text; anywhere else nothing is read.
pub proof fn law_ticket_or_nothing(
    before0: Seq<char>,
    room: Seq<char>,
    room_id: Seq<char>,
    after0: Seq<char>,
    before1: Seq<char>,
    sender: Seq<char>,
    sender_id: Seq<char>,
    after1: Seq<char>,
    time: Seq<char>,
    text: Seq<char>,
    ticket_pattern: Seq<char>,
)
    requires
        part_reads_back(before0, "room"@, room, room_id),
        part_reads_back(before1, "sender"@, sender, sender_id),
        room.len() > 0,
        room_id.len() > 0,
        !room_part(before0, room, room_id, after0).contains('|'),
        !sender_part(before1, sender, sender_id, after1).contains('|'),
        !time.contains('|'),
        !text.contains('|'),
        second_char(ascii_lowercase(text)) != '>',
        !contains(ascii_lowercase(text), "botbot"@),
    ensures
        ({
            let line = join_with(
                seq![room_part(before0, room, room_id, after0), sender_part(before1, sender, sender_id, after1), time, text],
                '|',
            );
            let m = MessageView { room_origin: room, room_id, sender_id, sender_name: sender, m_message: text };
            &&& room == "fdn-tickets-internal"@ && regex_matches(ticket_pattern, ascii_lowercase(text))
                ==> spec_botbot_read(line, ticket_pattern)
                    == Some((m, TriggerView::Ticket { number: regex_first_match(ticket_pattern, text) }))
            &&& !(room == "fdn-tickets-internal"@ && regex_matches(ticket_pattern, ascii_lowercase(text)))
                ==> spec_botbot_read(line, ticket_pattern) == Some((m, TriggerView::Nothing))
        }),
{
    law_frame_read_back(before0, room, room_id, after0, before1, sender, sender_id, after1, time, text, ticket_pattern);
}

} // verus!
