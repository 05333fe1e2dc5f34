//! Messages read from a frame and what the bot decides to answer them.

use vstd::prelude::*;
use vstd::utf8::*;
use crate::text::{
    ascii_lower, ascii_lowercase, byte_slice, concat, contains, lemma_boundary_at_join,
    lemma_replace_absent, lemma_utf8_ascii_char, lemma_utf8_concat, owned, replace, replace_all,
    result_view, slice_to_string, str_contains, to_ascii_lowercase, utf8, views,
};
use crate::my_system::{disk_usage, i32_to_text, int_text, spec_disk_usage};
use crate::transliterate::{lemma_unidecode_ascii, transliterated, unidecode, unidecode_of};
use crate::message_mgmt::{
    get_left_arg, get_right_arg, id_cut_ok, id_name, ids_cut_ok, joined_by_comma,
    law_id_name_read_back, law_left_arg_read_back, law_ping_list_names, law_right_arg_read_back,
    ping_list, spec_get_left_arg, spec_get_right_arg, spec_ping_list,
};

verus! {

broadcast use vstd::utf8::group_utf8_lib;

/// A message received in a room.
pub struct Message {
    pub room_origin: String,
    pub room_id: String,
    pub sender_id: String,
    pub sender_name: String,
    pub m_message: String,
}

/// What the bot decides for a message addressed to it.
pub enum Thought {
    /// The answer is settled: a reply to say, or an error to report.
    Reply(Result<String, String>),
    /// An admin asks to store `answer` for the trigger word `trigger`.
    AddChat { trigger: String, answer: String },
    /// An admin asks to forget the trigger word `trigger`.
    DelChat { trigger: String },
    /// The answer is the stored one whose trigger word occurs in `phrase`.
    Lookup { phrase: String },
    /// An admin asks for the disk space of `/var`.
    DiskSpace,
}

/// The view of a `Thought`.
pub enum ThoughtView {
    Reply(Result<Seq<char>, Seq<char>>),
    AddChat { trigger: Seq<char>, answer: Seq<char> },
    DelChat { trigger: Seq<char> },
    Lookup { phrase: Seq<char> },
    DiskSpace,
}

impl View for Thought {
    type V = ThoughtView;

    open spec fn view(&self) -> ThoughtView {
        match self {
            Thought::Reply(r) => ThoughtView::Reply(result_view(*r)),
            Thought::AddChat { trigger, answer } => ThoughtView::AddChat { trigger: trigger@, answer: answer@ },
            Thought::DelChat { trigger } => ThoughtView::DelChat { trigger: trigger@ },
            Thought::Lookup { phrase } => ThoughtView::Lookup { phrase: phrase@ },
            Thought::DiskSpace => ThoughtView::DiskSpace,
        }
    }
}

/// The answer to a ping request: who asks, and the ping list of `ids`.
pub open spec fn ping_reply(sender_name: Seq<char>, ids: Seq<Seq<char>>) -> Seq<char> {
    "Hello les adminsys: "@ + sender_name + " vous contacte ! "@ + spec_ping_list(ids, 0, None)
}

/// What `thinking` decides for `message` from `sender_id` (named
/// `sender_name`): admin commands for the members of `adminsys`, ping
/// requests, and otherwise a lookup of the lower-case transliterated message.
pub open spec fn spec_thinking(
    sender_id: Seq<char>,
    sender_name: Seq<char>,
    message: Seq<char>,
    adminsys: Seq<Seq<char>>,
    admincore: Seq<Seq<char>>,
) -> ThoughtView {
    let choice = unidecode_of(message);
    let phrase = ascii_lowercase(choice);
    if contains(phrase, "botbot admin"@) && adminsys.contains(sender_id) {
        if contains(phrase, "admin add"@) {
            match spec_get_left_arg(choice) {
                Ok(trigger) => match spec_get_right_arg(choice) {
                    Ok(answer) => ThoughtView::AddChat { trigger, answer },
                    Err(e) => ThoughtView::Reply(Err("ERROR: chat_to_add get answer - "@ + e)),
                },
                Err(e) => ThoughtView::Reply(Err("ERROR: chat_to_add get trigger- "@ + e)),
            }
        } else if contains(phrase, "admin del"@) {
            match spec_get_left_arg(choice) {
                Ok(trigger) => ThoughtView::DelChat { trigger },
                Err(e) => ThoughtView::Reply(Err("ERROR: chat_to_del match trigger - "@ + e)),
            }
        } else if contains(phrase, "admin alert"@) {
            ThoughtView::Reply(Ok("plop"@))
        } else if contains(phrase, "admin space"@) {
            ThoughtView::DiskSpace
        } else {
            ThoughtView::Reply(Err("ERROR: no admin command"@))
        }
    } else if contains(phrase, "ping adminsys"@) {
        ThoughtView::Reply(Ok(ping_reply(sender_name, adminsys)))
    } else if contains(phrase, "ping admincore"@) {
        ThoughtView::Reply(Ok(ping_reply(sender_name, admincore)))
    } else {
        ThoughtView::Lookup { phrase }
    }
}

/// Every id can be cut from its first byte.
proof fn lemma_ids_cut_from_start(ids: Seq<Seq<char>>)
    ensures
        ids_cut_ok(ids, 0),
{
    assert forall|i: int| 0 <= i < ids.len() implies #[trigger] id_cut_ok(ids[i], 0) by {
        is_char_boundary_start_end_of_seq(utf8(ids[i]));
    }
}

/// `list` holds a string equal to `s`.
pub fn list_contains(list: &Vec<String>, s: &String) -> (b: bool)
    ensures
        b == views(list@).contains(s@),
{
    let n = list.len();
    let mut i: usize = 0;
    while i < n
        invariant
            n == list@.len(),
            i <= n,
            forall|j: int| 0 <= j < i ==> list@[j]@ != s@,
        decreases n - i,
    {
        if list[i] == *s {
            assert(views(list@)[i as int] == s@);
            return true;
        }
        i = i + 1;
    }
    proof {
        if views(list@).contains(s@) {
            let j = choose|j: int| 0 <= j < views(list@).len() && views(list@)[j] == s@;
            assert(list@[j]@ == s@);
        }
    }
    false
}

/// The answer to a ping request.
fn ping_answer(sender_name: &String, ids: &Vec<String>) -> (r: String)
    ensures
        r@ == ping_reply(sender_name@, views(ids@)),
{
    proof {
        lemma_ids_cut_from_start(views(ids@));
    }
    let list = ping_list(ids, 0, None);
    let mut r = concat("Hello les adminsys: ", sender_name.as_str());
    r.append(" vous contacte ! ");
    r.append(list.as_str());
    r
}

/// The reply `[admin mode by: <sender>] <chat> <done>`.
pub open spec fn admin_done(sender_name: Seq<char>, chat: Seq<char>, done: Seq<char>) -> Seq<char> {
    "[admin mode by: "@ + sender_name + "] "@ + chat + done
}

/// What `chat_added` gives for the outcome of storing a trigger word.
pub open spec fn spec_chat_added(sender_name: Seq<char>, outcome: Result<Seq<char>, Seq<char>>) -> Result<Seq<char>, Seq<char>> {
    match outcome {
        Ok(chat) => Ok(admin_done(sender_name, chat, " ajouté !"@)),
        Err(e) => Err("ERROR: chat_to_add process to add - "@ + e),
    }
}

/// What `chat_deleted` gives for the outcome of forgetting a trigger word.
pub open spec fn spec_chat_deleted(sender_name: Seq<char>, outcome: Result<Seq<char>, Seq<char>>) -> Result<Seq<char>, Seq<char>> {
    match outcome {
        Ok(chat) => Ok(admin_done(sender_name, chat, " supprimé !"@)),
        Err(e) => Err("ERROR: chat_to_del proceed to del - "@ + e),
    }
}

/// A stored answer as the bot says it: `%s` becomes the sender's name, then
/// `%n` becomes a line break.
pub open spec fn personalize(answer: Seq<char>, sender_name: Seq<char>) -> Seq<char> {
    replace_all(replace_all(answer, "%s"@, sender_name), "%n"@, "\n"@)
}

/// What `answer_found` gives for the outcome of looking up a stored answer.
pub open spec fn spec_answer_found(sender_name: Seq<char>, outcome: Result<Seq<char>, Seq<char>>) -> Result<Seq<char>, Seq<char>> {
    match outcome {
        Ok(answer) => Ok(personalize(answer, sender_name)),
        Err(e) => Err("ERROR: return answer - "@ + e),
    }
}

/// The ticket page that `ticket` links to for a ticket number such as
/// `#12345`: the number without its first character (the `#`).
pub open spec fn ticket_url(ticket_number: Seq<char>) -> Seq<char> {
    "Ticket: https://tickets.fdn.fr/rt/Ticket/Display.html?id="@
        + byte_slice(ticket_number, 1, utf8(ticket_number).len() as int)
}

/// The arguments of the matrix-commander call that says `phrase` in the room
/// `room_id`, after the configured credentials and store arguments.
pub open spec fn talking_arguments(
    credentials: Seq<char>,
    store: Seq<char>,
    room_id: Seq<char>,
    phrase: Seq<char>,
) -> Seq<Seq<char>> {
    seq![credentials, store, "-r"@ + room_id, "-m"@ + phrase]
}

/// The reply to `botbot admin space` for the output of `df`: the used
/// percentage of `/var`, or the error of reading it; `None` where the `/var`
/// line has no usage field that can be cut.
pub open spec fn spec_disk_space_reply(sender_name: Seq<char>, df_output: Seq<char>) -> Option<Result<Seq<char>, Seq<char>>> {
    match spec_disk_usage(df_output, "/var"@) {
        Some(Ok(v)) => Some(Ok(admin_done(sender_name, "/var"@, " utilisé à "@ + int_text(v as int) + "%"@))),
        Some(Err(e)) => Some(Err("ERROR: admin space - "@ + e)),
        None => None,
    }
}

fn reported(prefix: &str, e: String) -> (r: String)
    ensures
        r@ == prefix@ + e@,
{
    concat(prefix, e.as_str())
}

impl Message {
    /// Decides what the bot does with a message that calls it: admin commands
    /// of the members of `adminsys_list`, ping requests, or a lookup of the
    /// stored answers.
    pub fn thinking(&self, adminsys_list: &Vec<String>, admincore_list: &Vec<String>) -> (t: Thought)
        ensures
            t@ == spec_thinking(
                self.sender_id@,
                self.sender_name@,
                self.m_message@,
                views(adminsys_list@),
                views(admincore_list@),
            ),
    {
        let choice = unidecode(self.m_message.as_str());
        assert(choice@ == unidecode_of(self.m_message@));
        let botbot_phrase = to_ascii_lowercase(choice.as_str());
        let phrase = botbot_phrase.as_str();
        if str_contains(phrase, "botbot admin") && list_contains(adminsys_list, &self.sender_id) {
            if str_contains(phrase, "admin add") {
                match get_left_arg(&choice) {
                    Ok(trigger) => match get_right_arg(&choice) {
                        Ok(answer) => Thought::AddChat { trigger, answer },
                        Err(e) => Thought::Reply(Err(reported("ERROR: chat_to_add get answer - ", e))),
                    },
                    Err(e) => Thought::Reply(Err(reported("ERROR: chat_to_add get trigger- ", e))),
                }
            } else if str_contains(phrase, "admin del") {
                match get_left_arg(&choice) {
                    Ok(trigger) => Thought::DelChat { trigger },
                    Err(e) => Thought::Reply(Err(reported("ERROR: chat_to_del match trigger - ", e))),
                }
            } else if str_contains(phrase, "admin alert") {
                Thought::Reply(Ok(owned("plop")))
            } else if str_contains(phrase, "admin space") {
                Thought::DiskSpace
            } else {
                Thought::Reply(Err(owned("ERROR: no admin command")))
            }
        } else if str_contains(phrase, "ping adminsys") {
            Thought::Reply(Ok(ping_answer(&self.sender_name, adminsys_list)))
        } else if str_contains(phrase, "ping admincore") {
            Thought::Reply(Ok(ping_answer(&self.sender_name, admincore_list)))
        } else {
            Thought::Lookup { phrase: botbot_phrase }
        }
    }

    /// The reply once a trigger word was stored (or failed to be).
    pub fn chat_added(&self, outcome: Result<String, String>) -> (r: Result<String, String>)
        ensures
            result_view(r) == spec_chat_added(self.sender_name@, result_view(outcome)),
    {
        match outcome {
            Ok(chat) => {
                let mut r = concat("[admin mode by: ", self.sender_name.as_str());
                r.append("] ");
                r.append(chat.as_str());
                r.append(" ajouté !");
                Ok(r)
            },
            Err(e) => Err(reported("ERROR: chat_to_add process to add - ", e)),
        }
    }

    /// The reply once a trigger word was forgotten (or failed to be).
    pub fn chat_deleted(&self, outcome: Result<String, String>) -> (r: Result<String, String>)
        ensures
            result_view(r) == spec_chat_deleted(self.sender_name@, result_view(outcome)),
    {
        match outcome {
            Ok(chat) => {
                let mut r = concat("[admin mode by: ", self.sender_name.as_str());
                r.append("] ");
                r.append(chat.as_str());
                r.append(" supprimé !");
                Ok(r)
            },
            Err(e) => Err(reported("ERROR: chat_to_del proceed to del - ", e)),
        }
    }

    /// The reply once a stored answer was looked up (or failed to be).
    pub fn answer_found(&self, outcome: Result<String, String>) -> (r: Result<String, String>)
        ensures
            result_view(r) == spec_answer_found(self.sender_name@, result_view(outcome)),
    {
        proof {
            reveal_strlit("%s");
            reveal_strlit("%n");
        }
        match outcome {
            Ok(answer) => {
                let answer_with_name = replace(answer.as_str(), "%s", self.sender_name.as_str());
                let answer_with_new_line = replace(answer_with_name.as_str(), "%n", "\n");
                Ok(answer_with_new_line)
            },
            Err(e) => Err(reported("ERROR: return answer - ", e)),
        }
    }

    /// The link to the ticket `ticket_number` (such as `#12345`) found in the
    /// message.
    pub fn ticket(&self, ticket_number: String) -> (r: Result<String, String>)
        requires
            utf8(ticket_number@).len() >= 1,
            is_char_boundary(utf8(ticket_number@), 1),
        ensures
            r matches Ok(url) && url@ == ticket_url(ticket_number@),
    {
        let m = ticket_number.as_str();
        proof {
            is_char_boundary_start_end_of_seq(utf8(m@));
        }
        let number = slice_to_string(m, 1, m.as_bytes().len());
        Ok(concat("Ticket: https://tickets.fdn.fr/rt/Ticket/Display.html?id=", number.as_str()))
    }

    /// The arguments of the matrix-commander call that says `phrase_to_say`
    /// in the message's room.
    pub fn talking_args(&self, credentials: &str, store: &str, phrase_to_say: String) -> (args: Vec<String>)
        ensures
            views(args@) == talking_arguments(credentials@, store@, self.room_id@, phrase_to_say@),
    {
        let mut args: Vec<String> = Vec::new();
        args.push(owned(credentials));
        args.push(owned(store));
        args.push(concat("-r", self.room_id.as_str()));
        args.push(concat("-m", phrase_to_say.as_str()));
        assert(views(args@) =~= talking_arguments(credentials@, store@, self.room_id@, phrase_to_say@));
        args
    }

    /// The reply to `botbot admin space`, from the output of `df`: the used
    /// percentage of `/var`; `None` where the `/var` line has no usage field
    /// that can be cut.
    pub fn disk_space_reply(&self, df_output: &str) -> (r: Option<Result<String, String>>)
        ensures
            match r {
                Some(reply) => spec_disk_space_reply(self.sender_name@, df_output@) == Some(result_view(reply)),
                None => spec_disk_space_reply(self.sender_name@, df_output@) is None,
            },
    {
        match disk_usage(df_output, "/var") {
            Some(Ok(usage)) => {
                let mut r = concat("[admin mode by: ", self.sender_name.as_str());
                r.append("] ");
                r.append("/var");
                r.append(" utilisé à ");
                let number = i32_to_text(usage);
                r.append(number.as_str());
                r.append("%");
                assert(r@ =~= admin_done(self.sender_name@, "/var"@, " utilisé à "@ + int_text(usage as int) + "%"@));
                Some(Ok(r))
            },
            Some(Err(e)) => Some(Err(reported("ERROR: admin space - ", e))),
            None => None,
        }
    }
}

/// Lower case distributes over concatenation.
proof fn lemma_lowercase_concat(a: Seq<char>, b: Seq<char>)
    ensures
        ascii_lowercase(a + b) == ascii_lowercase(a) + ascii_lowercase(b),
{
    assert(ascii_lowercase(a + b) =~= ascii_lowercase(a) + ascii_lowercase(b));
}

/// Two characters equal up to ASCII case are transliterated to texts equal up
/// to ASCII case.
proof fn lemma_transliterate_char_case(c1: char, c2: char)
    requires
        ascii_lower(c1) == ascii_lower(c2),
    ensures
        ascii_lowercase(unidecode_of(seq![c1])) == ascii_lowercase(unidecode_of(seq![c2])),
{
    assert(seq![c1].drop_last() =~= Seq::<char>::empty());
    assert(seq![c2].drop_last() =~= Seq::<char>::empty());
    let a1 = '\0' <= c1 && c1 <= '\u{7f}';
    let a2 = '\0' <= c2 && c2 <= '\u{7f}';
    if 'A' <= c1 && c1 <= 'Z' {
        assert((c1 as u32) + 32 <= 0x7f);
        assert(((((c1 as u32) + 32) as char) as u32) == (c1 as u32) + 32);
    }
    if 'A' <= c2 && c2 <= 'Z' {
        assert((c2 as u32) + 32 <= 0x7f);
        assert(((((c2 as u32) + 32) as char) as u32) == (c2 as u32) + 32);
    }
    assert(seq![c1].last() == c1);
    assert(seq![c2].last() == c2);
    assert(unidecode_of(Seq::<char>::empty()) =~= Seq::<char>::empty());
    if a1 && a2 {
        assert(ascii_lowercase(seq![c1]) =~= seq![ascii_lower(c1)]);
        assert(ascii_lowercase(seq![c2]) =~= seq![ascii_lower(c2)]);
        assert(unidecode_of(seq![c1]) =~= seq![c1]);
        assert(unidecode_of(seq![c2]) =~= seq![c2]);
    } else if !a1 && !a2 {
        assert(c1 == c2);
    } else if a1 {
        assert(ascii_lower(c2) == c2);
        assert(false);
    } else {
        assert(ascii_lower(c1) == c1);
        assert(false);
    }
}

/// Texts equal up to ASCII case have transliterations equal up to ASCII
/// case.
pub proof fn lemma_unidecode_case(m1: Seq<char>, m2: Seq<char>)
    requires
        ascii_lowercase(m1) == ascii_lowercase(m2),
    ensures
        ascii_lowercase(unidecode_of(m1)) == ascii_lowercase(unidecode_of(m2)),
    decreases m1.len(),
{
    assert(m1.len() == ascii_lowercase(m1).len());
    assert(m2.len() == ascii_lowercase(m2).len());
    if m1.len() > 0 {
        let n = m1.len() - 1;
        assert(ascii_lowercase(m1.drop_last()) =~= ascii_lowercase(m2.drop_last())) by {
            assert forall|i: int| 0 <= i < n implies ascii_lowercase(m1.drop_last())[i]
                == ascii_lowercase(m2.drop_last())[i] by {
                assert(ascii_lowercase(m1)[i] == ascii_lowercase(m2)[i]);
                assert(m1.drop_last()[i] == m1[i] && m2.drop_last()[i] == m2[i]);
                assert(ascii_lowercase(m1)[i] == ascii_lower(m1[i]));
                assert(ascii_lowercase(m2)[i] == ascii_lower(m2[i]));
            }
        }
        lemma_unidecode_case(m1.drop_last(), m2.drop_last());
        assert(ascii_lowercase(m1)[n] == ascii_lowercase(m2)[n]);
        let c1 = m1.last();
        let c2 = m2.last();
        assert(c1 == m1[n] && c2 == m2[n]);
        assert(ascii_lowercase(m1)[n] == ascii_lower(m1[n]));
        assert(ascii_lowercase(m2)[n] == ascii_lower(m2[n]));
        lemma_transliterate_char_case(c1, c2);
        let e1 = unidecode_of(seq![c1]);
        let e2 = unidecode_of(seq![c2]);
        assert(seq![c1].drop_last() =~= Seq::<char>::empty());
        assert(seq![c2].drop_last() =~= Seq::<char>::empty());
        assert(seq![c1].last() == c1 && seq![c2].last() == c2);
        assert(unidecode_of(Seq::<char>::empty()) =~= Seq::<char>::empty());
        assert(unidecode_of(m1) =~= unidecode_of(m1.drop_last()) + e1);
        assert(unidecode_of(m2) =~= unidecode_of(m2.drop_last()) + e2);
        lemma_lowercase_concat(unidecode_of(m1.drop_last()), e1);
        lemma_lowercase_concat(unidecode_of(m2.drop_last()), e2);
    } else {
        assert(m2.len() == 0);
    }
}

/// Commands are recognized whatever the ASCII case of the message: two
/// messages equal up to ASCII case get the same decision, except for the
/// admin commands of an admin, whose arguments keep their case.
pub proof fn law_commands_ignore_case(
    sender_id: Seq<char>,
    sender_name: Seq<char>,
    m1: Seq<char>,
    m2: Seq<char>,
    adminsys: Seq<Seq<char>>,
    admincore: Seq<Seq<char>>,
)
    requires
        ascii_lowercase(m1) == ascii_lowercase(m2),
        !(contains(ascii_lowercase(unidecode_of(m1)), "botbot admin"@) && adminsys.contains(sender_id)),
    ensures
        spec_thinking(sender_id, sender_name, m1, adminsys, admincore)
            == spec_thinking(sender_id, sender_name, m2, adminsys, admincore),
{
    lemma_unidecode_case(m1, m2);
}

/// For an ASCII message, the phrase the bot matches is the message in lower
/// case.
pub proof fn law_ascii_phrase(m: Seq<char>)
    requires
        is_ascii_chars(m),
    ensures
        ascii_lowercase(unidecode_of(m)) == ascii_lowercase(m),
{
    lemma_unidecode_ascii(m);
}

/// Only a member of the adminsys list can have a trigger word stored or
/// forgotten: for any other sender, thinking never asks for it.
pub proof fn law_admin_commands_need_admin(
    sender_id: Seq<char>,
    sender_name: Seq<char>,
    message: Seq<char>,
    adminsys: Seq<Seq<char>>,
    admincore: Seq<Seq<char>>,
)
    requires
        !adminsys.contains(sender_id),
    ensures
        !(spec_thinking(sender_id, sender_name, message, adminsys, admincore) is AddChat),
        !(spec_thinking(sender_id, sender_name, message, adminsys, admincore) is DelChat),
{
}

/// A stored answer without `%` is said as it is stored.
pub proof fn law_plain_answer_unchanged(answer: Seq<char>, sender_name: Seq<char>)
    requires
        !answer.contains('%'),
    ensures
        personalize(answer, sender_name) == answer,
{
    reveal_strlit("%s");
    reveal_strlit("%n");
    lemma_replace_absent(answer, "%s"@, sender_name);
    lemma_replace_absent(answer, "%n"@, "\n"@);
}

/// Admin mode depends on the adminsys list alone: once a member of adminsys
/// sends an admin command, what the bot decides is the same whatever the
/// admincore list holds.
pub proof fn law_admin_mode_ignores_admincore(
    sender_id: Seq<char>,
    sender_name: Seq<char>,
    message: Seq<char>,
    adminsys: Seq<Seq<char>>,
    admincore1: Seq<Seq<char>>,
    admincore2: Seq<Seq<char>>,
)
    requires
        adminsys.contains(sender_id),
        contains(ascii_lowercase(unidecode_of(message)), "botbot admin"@),
    ensures
        spec_thinking(sender_id, sender_name, message, adminsys, admincore1)
            == spec_thinking(sender_id, sender_name, message, adminsys, admincore2),
{
}

/// A member of adminsys who sends `botbot admin add [t] [a]` has the answer
/// `a` stored for the trigger word `t`, as written between the brackets,
/// whatever the admincore list holds.
pub proof fn law_admin_add(
    sender_id: Seq<char>,
    sender_name: Seq<char>,
    message: Seq<char>,
    adminsys: Seq<Seq<char>>,
    admincore: Seq<Seq<char>>,
    before: Seq<char>,
    t: Seq<char>,
    mid: Seq<char>,
    a: Seq<char>,
    after: Seq<char>,
)
    requires
        adminsys.contains(sender_id),
        unidecode_of(message) == before + "["@ + t + "]"@ + mid + "["@ + a + "]"@ + after,
        contains(ascii_lowercase(unidecode_of(message)), "botbot admin"@),
        contains(ascii_lowercase(unidecode_of(message)), "admin add"@),
        !before.contains('['),
        !before.contains(']'),
        !t.contains(']'),
        !mid.contains('['),
        !mid.contains(']'),
        !a.contains(']'),
    ensures
        spec_thinking(sender_id, sender_name, message, adminsys, admincore)
            == (ThoughtView::AddChat { trigger: t, answer: a }),
{
    let choice = unidecode_of(message);
    assert(choice =~= before + "["@ + t + "]"@ + (mid + "["@ + a + "]"@ + after));
    law_left_arg_read_back(before, t, mid + "["@ + a + "]"@ + after);
    law_right_arg_read_back(before, t, mid, a, after);
}

/// A member of adminsys who sends `botbot admin del [t]` (and no `admin
/// add`) has the trigger word `t` forgotten, as written between the
/// brackets, whatever the admincore list holds.
pub proof fn law_admin_del(
    sender_id: Seq<char>,
    sender_name: Seq<char>,
    message: Seq<char>,
    adminsys: Seq<Seq<char>>,
    admincore: Seq<Seq<char>>,
    before: Seq<char>,
    t: Seq<char>,
    after: Seq<char>,
)
    requires
        adminsys.contains(sender_id),
        unidecode_of(message) == before + "["@ + t + "]"@ + after,
        contains(ascii_lowercase(unidecode_of(message)), "botbot admin"@),
        !contains(ascii_lowercase(unidecode_of(message)), "admin add"@),
        contains(ascii_lowercase(unidecode_of(message)), "admin del"@),
        !before.contains('['),
        !before.contains(']'),
        !t.contains(']'),
    ensures
        spec_thinking(sender_id, sender_name, message, adminsys, admincore)
            == (ThoughtView::DelChat { trigger: t }),
{
    law_left_arg_read_back(before, t, after);
}

/// The ping reply for ids `name:server` lists every `name`.
proof fn lemma_ping_reply_names(
    sender_name: Seq<char>,
    ids: Seq<Seq<char>>,
    names: Seq<Seq<char>>,
    servers: Seq<Seq<char>>,
)
    requires
        ids.len() == names.len(),
        servers.len() == names.len(),
        names.len() > 0,
        forall|i: int| 0 <= i < names.len() ==> !(#[trigger] names[i]).contains(':'),
        forall|i: int| 0 <= i < names.len() ==> #[trigger] ids[i] == names[i] + ":"@ + servers[i],
    ensures
        ping_reply(sender_name, ids)
            == "Hello les adminsys: "@ + sender_name + " vous contacte ! "@ + "ping: "@ + joined_by_comma(names),
{
    assert forall|i: int| 0 <= i < ids.len() implies id_name(#[trigger] ids[i], 0) == Some(names[i]) by {
        let e = Seq::<char>::empty();
        assert(!e.contains(':'));
        law_id_name_read_back(e, names[i], servers[i]);
        assert(e + names[i] + ":"@ + servers[i] =~= ids[i]);
        assert(utf8(e) =~= Seq::<u8>::empty());
    }
    law_ping_list_names(ids, names, 0, None);
    assert(ping_reply(sender_name, ids) =~= "Hello les adminsys: "@ + sender_name + " vous contacte ! "@
        + "ping: "@ + joined_by_comma(names));
}

/// `botbot ping adminsys` outside admin mode pings every member of the
/// adminsys list: for ids `name:server`, the reply names the sender and then
/// lists every `name`, in list order, joined by `, `.
pub proof fn law_ping_adminsys(
    sender_id: Seq<char>,
    sender_name: Seq<char>,
    message: Seq<char>,
    adminsys: Seq<Seq<char>>,
    admincore: Seq<Seq<char>>,
    names: Seq<Seq<char>>,
    servers: Seq<Seq<char>>,
)
    requires
        adminsys.len() == names.len(),
        servers.len() == names.len(),
        names.len() > 0,
        forall|i: int| 0 <= i < names.len() ==> !(#[trigger] names[i]).contains(':'),
        forall|i: int| 0 <= i < names.len() ==> #[trigger] adminsys[i] == names[i] + ":"@ + servers[i],
        !(contains(ascii_lowercase(unidecode_of(message)), "botbot admin"@) && adminsys.contains(sender_id)),
        contains(ascii_lowercase(unidecode_of(message)), "ping adminsys"@),
    ensures
        spec_thinking(sender_id, sender_name, message, adminsys, admincore) == ThoughtView::Reply(Ok(
            "Hello les adminsys: "@ + sender_name + " vous contacte ! "@ + "ping: "@ + joined_by_comma(names),
        )),
{
    lemma_ping_reply_names(sender_name, adminsys, names, servers);
}

/// `botbot ping admincore` (without `ping adminsys`) outside admin mode
/// pings every member of the admincore list, in list order.
pub proof fn law_ping_admincore(
    sender_id: Seq<char>,
    sender_name: Seq<char>,
    message: Seq<char>,
    adminsys: Seq<Seq<char>>,
    admincore: Seq<Seq<char>>,
    names: Seq<Seq<char>>,
    servers: Seq<Seq<char>>,
)
    requires
        admincore.len() == names.len(),
        servers.len() == names.len(),
        names.len() > 0,
        forall|i: int| 0 <= i < names.len() ==> !(#[trigger] names[i]).contains(':'),
        forall|i: int| 0 <= i < names.len() ==> #[trigger] admincore[i] == names[i] + ":"@ + servers[i],
        !(contains(ascii_lowercase(unidecode_of(message)), "botbot admin"@) && adminsys.contains(sender_id)),
        !contains(ascii_lowercase(unidecode_of(message)), "ping adminsys"@),
        contains(ascii_lowercase(unidecode_of(message)), "ping admincore"@),
    ensures
        spec_thinking(sender_id, sender_name, message, adminsys, admincore) == ThoughtView::Reply(Ok(
            "Hello les adminsys: "@ + sender_name + " vous contacte ! "@ + "ping: "@ + joined_by_comma(names),
        )),
{
    lemma_ping_reply_names(sender_name, admincore, names, servers);
}

/// A message that is neither an admin command of an admin nor a ping request
/// is looked up as its lower-case transliteration.
pub proof fn law_lookup_otherwise(
    sender_id: Seq<char>,
    sender_name: Seq<char>,
    message: Seq<char>,
    adminsys: Seq<Seq<char>>,
    admincore: Seq<Seq<char>>,
)
    requires
        !(contains(ascii_lowercase(unidecode_of(message)), "botbot admin"@) && adminsys.contains(sender_id)),
        !contains(ascii_lowercase(unidecode_of(message)), "ping adminsys"@),
        !contains(ascii_lowercase(unidecode_of(message)), "ping admincore"@),
    ensures
        spec_thinking(sender_id, sender_name, message, adminsys, admincore)
            == (ThoughtView::Lookup { phrase: ascii_lowercase(unidecode_of(message)) }),
{
}

/// The other admin commands of a member of adminsys: `admin alert` is
/// answered `plop`, `admin space` asks for the disk space, and an admin
/// message with no known command is an error.
pub proof fn law_admin_other_commands(
    sender_id: Seq<char>,
    sender_name: Seq<char>,
    message: Seq<char>,
    adminsys: Seq<Seq<char>>,
    admincore: Seq<Seq<char>>,
)
    requires
        adminsys.contains(sender_id),
        contains(ascii_lowercase(unidecode_of(message)), "botbot admin"@),
        !contains(ascii_lowercase(unidecode_of(message)), "admin add"@),
        !contains(ascii_lowercase(unidecode_of(message)), "admin del"@),
    ensures
        ({
            let phrase = ascii_lowercase(unidecode_of(message));
            let t = spec_thinking(sender_id, sender_name, message, adminsys, admincore);
            &&& contains(phrase, "admin alert"@) ==> t == ThoughtView::Reply(Ok("plop"@))
            &&& !contains(phrase, "admin alert"@) && contains(phrase, "admin space"@) ==> t == ThoughtView::DiskSpace
            &&& !contains(phrase, "admin alert"@) && !contains(phrase, "admin space"@)
                ==> t == ThoughtView::Reply(Err("ERROR: no admin command"@))
        }),
{
}

/// The ticket link carries the whole ticket number after its `#`: for
/// `#` followed by any text `d`, the link ends in exactly `d`, whatever its
/// length; and such a number is accepted by `ticket`.
pub proof fn law_ticket_whole_number(d: Seq<char>)
    ensures
        utf8(seq!['#'] + d).len() >= 1,
        is_char_boundary(utf8(seq!['#'] + d), 1),
        ticket_url(seq!['#'] + d) == "Ticket: https://tickets.fdn.fr/rt/Ticket/Display.html?id="@ + d,
{
    let n = seq!['#'] + d;
    lemma_utf8_concat(seq!['#'], d);
    lemma_utf8_ascii_char('#');
    lemma_boundary_at_join(seq!['#'], d);
    assert(utf8(n).subrange(1, utf8(n).len() as int) =~= utf8(d));
}

} // verus!
