//! Message mode: a console that walks through the messages of one thread.
//! Each input line is one step of a state machine; the step tells what to
//! show, and whether the current message is shown again before the next
//! prompt.
//!
//! Messages are numbered from the oldest: message id `k` is
//! `conversation[len - 1 - k]`, since the conversation holds the newest first.
use crate::model::{texts, Message, Thread};
use crate::render::{has_media_defect, media_defect};
use crate::text::{
    byte_len_below, contains_str, contains_text, join_words, joined, lowercase, parse_usize, parsed_usize,
    same_text, split_words, to_lower, words,
};
use vstd::prelude::*;
use vstd::utf8::encode_utf8;

verus! {

broadcast use vstd::string::group_string_axioms;

/// The position in a thread and the auto-advance settings.
#[derive(Clone, Copy, PartialEq, Eq, Debug, Structural)]
pub struct Browser {
    /// The id of the current message (0 is the oldest).
    pub current: usize,
    /// Whether a short input line moves to another message.
    pub auto_forward: bool,
    /// Whether that move goes to newer messages (else to older ones).
    pub forwards: bool,
}

/// What one step asks the console to show. `T` is a text, `H` a list of
/// conversation indices.
#[derive(Debug)]
pub enum BrowseReplyOf<T, H> {
    /// Nothing besides, possibly, the current message.
    Nothing,
    /// `(reached end)`
    ReachedEnd,
    /// `(reached start)`
    ReachedStart,
    /// Auto-forward was toggled; the new setting.
    AutoForward(bool),
    /// The auto-forward direction was toggled; whether it now goes forwards.
    Direction(bool),
    /// The media of the message at this conversation index.
    Media(usize),
    /// The likes of the message at this conversation index.
    Likes(usize),
    /// A message id out of range; the conversation length.
    IdOutOfRange(usize),
    /// `l` with an argument that is no number.
    LikesSyntax,
    /// `f` without a needle.
    FindSyntax,
    /// A needle shorter than three bytes.
    NeedleTooShort,
    /// The needle and the conversation indices of the messages whose text
    /// holds it, newest first.
    Found(T, H),
    /// `fu` without exactly one user name.
    FindUserSyntax,
    /// The user name is no participant of the thread.
    UserNotFound,
    /// The user name and the conversation indices of their messages, newest
    /// first.
    FoundUser(T, H),
    /// The help text.
    Help,
    /// Leave message mode.
    Quit,
    /// `?`
    Unknown,
}

pub type BrowseReply = BrowseReplyOf<String, Vec<usize>>;

pub type BrowseReplyView = BrowseReplyOf<Seq<char>, Seq<usize>>;

impl View for BrowseReplyOf<String, Vec<usize>> {
    type V = BrowseReplyView;

    open spec fn view(&self) -> BrowseReplyView {
        match self {
            BrowseReplyOf::Nothing => BrowseReplyOf::Nothing,
            BrowseReplyOf::ReachedEnd => BrowseReplyOf::ReachedEnd,
            BrowseReplyOf::ReachedStart => BrowseReplyOf::ReachedStart,
            BrowseReplyOf::AutoForward(b) => BrowseReplyOf::AutoForward(*b),
            BrowseReplyOf::Direction(b) => BrowseReplyOf::Direction(*b),
            BrowseReplyOf::Media(i) => BrowseReplyOf::Media(*i),
            BrowseReplyOf::Likes(i) => BrowseReplyOf::Likes(*i),
            BrowseReplyOf::IdOutOfRange(n) => BrowseReplyOf::IdOutOfRange(*n),
            BrowseReplyOf::LikesSyntax => BrowseReplyOf::LikesSyntax,
            BrowseReplyOf::FindSyntax => BrowseReplyOf::FindSyntax,
            BrowseReplyOf::NeedleTooShort => BrowseReplyOf::NeedleTooShort,
            BrowseReplyOf::Found(t, h) => BrowseReplyOf::Found(t@, h@),
            BrowseReplyOf::FindUserSyntax => BrowseReplyOf::FindUserSyntax,
            BrowseReplyOf::UserNotFound => BrowseReplyOf::UserNotFound,
            BrowseReplyOf::FoundUser(t, h) => BrowseReplyOf::FoundUser(t@, h@),
            BrowseReplyOf::Help => BrowseReplyOf::Help,
            BrowseReplyOf::Quit => BrowseReplyOf::Quit,
            BrowseReplyOf::Unknown => BrowseReplyOf::Unknown,
        }
    }
}

/// The text of `m` holds `needle`, both lowercased.
pub open spec fn text_match(m: Message, needle: Seq<char>) -> bool {
    m.text is Some && contains_text(lowercase(m.text->0@), lowercase(needle))
}

/// The indices `from..` of messages whose text holds `needle`, from the
/// highest index down.
pub open spec fn text_hits(conv: Seq<Message>, needle: Seq<char>, from: int) -> Seq<usize>
    decreases conv.len() - from,
{
    if from < 0 || from >= conv.len() {
        seq![]
    } else {
        text_hits(conv, needle, from + 1) + (if text_match(conv[from], needle) {
            seq![from as usize]
        } else {
            seq![]
        })
    }
}

/// The indices `from..` of messages sent by `user`, from the highest index
/// down.
pub open spec fn user_hits(conv: Seq<Message>, user: Seq<char>, from: int) -> Seq<usize>
    decreases conv.len() - from,
{
    if from < 0 || from >= conv.len() {
        seq![]
    } else {
        user_hits(conv, user, from + 1) + (if conv[from].sender@ == user {
            seq![from as usize]
        } else {
            seq![]
        })
    }
}

/// The browser with `current` set to `k`.
pub open spec fn at(b: Browser, k: int) -> Browser {
    Browser { current: k as usize, auto_forward: b.auto_forward, forwards: b.forwards }
}

/// The step that one input line makes: the next browser, the reply, and
/// whether the current message is shown before the next prompt.
pub open spec fn browse_step(b: Browser, t: Thread, line: Seq<char>) -> (
    Browser,
    BrowseReplyView,
    bool,
) {
    let conv = t.conversation@;
    let len = conv.len();
    let last = len - 1;
    let ws = words(line);
    if encode_utf8(line).len() < 2 {
        if !b.auto_forward {
            (b, BrowseReplyOf::Nothing, true)
        } else if b.forwards {
            if b.current < last {
                (at(b, b.current + 1), BrowseReplyOf::Nothing, true)
            } else {
                (b, BrowseReplyOf::ReachedEnd, false)
            }
        } else {
            if b.current > 0 {
                (at(b, b.current - 1), BrowseReplyOf::Nothing, true)
            } else {
                (b, BrowseReplyOf::ReachedStart, false)
            }
        }
    } else if ws.len() == 0 {
        (b, BrowseReplyOf::Nothing, false)
    } else {
        let w = ws[0];
        if w == "."@ || w == "="@ || w == "+"@ {
            if b.current < last {
                (at(b, b.current + 1), BrowseReplyOf::Nothing, true)
            } else {
                (b, BrowseReplyOf::ReachedEnd, false)
            }
        } else if w == ","@ || w == "-"@ || w == "_"@ {
            if b.current > 0 {
                (at(b, b.current - 1), BrowseReplyOf::Nothing, true)
            } else {
                (b, BrowseReplyOf::ReachedStart, false)
            }
        } else if w == "s"@ {
            (at(b, 0), BrowseReplyOf::Nothing, true)
        } else if w == "e"@ {
            (at(b, last), BrowseReplyOf::Nothing, true)
        } else if w == "af"@ {
            (
                Browser { current: b.current, auto_forward: !b.auto_forward, forwards: b.forwards },
                BrowseReplyOf::AutoForward(!b.auto_forward),
                false,
            )
        } else if w == "raf"@ {
            (
                Browser { current: b.current, auto_forward: b.auto_forward, forwards: !b.forwards },
                BrowseReplyOf::Direction(!b.forwards),
                false,
            )
        } else if w == "m"@ {
            if ws.len() == 1 {
                (b, BrowseReplyOf::Media((last - b.current) as usize), true)
            } else {
                match parsed_usize(ws[1]) {
                    Some(n) => if 0 < n < len {
                        (b, BrowseReplyOf::Media((last - n) as usize), true)
                    } else {
                        (b, BrowseReplyOf::Nothing, true)
                    },
                    None => (b, BrowseReplyOf::Nothing, true),
                }
            }
        } else if w == "l"@ {
            if ws.len() == 1 {
                (b, BrowseReplyOf::Likes((last - b.current) as usize), false)
            } else {
                match parsed_usize(ws[1]) {
                    Some(n) => if 0 < n < len {
                        (b, BrowseReplyOf::Likes((last - n) as usize), false)
                    } else {
                        (b, BrowseReplyOf::IdOutOfRange(len as usize), false)
                    },
                    None => (b, BrowseReplyOf::LikesSyntax, false),
                }
            }
        } else if w == "f"@ {
            if ws.len() == 1 {
                (b, BrowseReplyOf::FindSyntax, false)
            } else {
                let needle = joined(ws.subrange(1, ws.len() as int));
                if encode_utf8(needle).len() < 3 {
                    (b, BrowseReplyOf::NeedleTooShort, false)
                } else {
                    (b, BrowseReplyOf::Found(needle, text_hits(conv, needle, 0)), false)
                }
            }
        } else if w == "fu"@ {
            if ws.len() != 2 {
                (b, BrowseReplyOf::FindUserSyntax, false)
            } else if !texts(t.participants@).contains(ws[1]) {
                (b, BrowseReplyOf::UserNotFound, false)
            } else {
                (b, BrowseReplyOf::FoundUser(ws[1], user_hits(conv, ws[1], 0)), false)
            }
        } else if w == "h"@ {
            (b, BrowseReplyOf::Help, true)
        } else if w == "q"@ {
            (b, BrowseReplyOf::Quit, true)
        } else {
            match parsed_usize(w) {
                Some(n) => if 0 < n < len {
                    (at(b, n as int), BrowseReplyOf::Nothing, true)
                } else {
                    (b, BrowseReplyOf::IdOutOfRange(len as usize), true)
                },
                None => (b, BrowseReplyOf::Unknown, true),
            }
        }
    }
}

/// The browser points at a message of a non-empty thread.
pub open spec fn ready(b: Browser, t: Thread) -> bool {
    1 <= t.conversation@.len() && b.current < t.conversation@.len()
}

/// The step on `line` can be taken: it does not show the media of a message
/// whose media cannot be shown.
pub open spec fn step_defined(b: Browser, t: Thread, line: Seq<char>) -> bool {
    let conv = t.conversation@;
    let len = conv.len();
    let ws = words(line);
    if encode_utf8(line).len() < 2 || ws.len() == 0 {
        true
    } else {
        let w = ws[0];
        if w == "m"@ {
            if ws.len() == 1 {
                !media_defect(conv[len - 1 - b.current])
            } else {
                match parsed_usize(ws[1]) {
                    Some(n) => (0 < n < len) ==> !media_defect(conv[len - 1 - n]),
                    None => true,
                }
            }
        } else {
            true
        }
    }
}

/// The conversation index of the message that browser `b` points at: message
/// id `k` is `conversation[len - 1 - k]`.
pub open spec fn shown(b: Browser, t: Thread) -> int {
    t.conversation@.len() - 1 - b.current
}

impl Browser {
    /// At the oldest message, auto-forward on, going forwards.
    pub fn new() -> (b: Browser)
        ensures
            b.current == 0,
            b.auto_forward,
            b.forwards,
    {
        Browser { current: 0, auto_forward: true, forwards: true }
    }
}

/// The indices of the messages of `conv` whose text holds `needle`, both
/// lowercased, newest first.
pub fn find_text(conv: &Vec<Message>, needle: &str) -> (hits: Vec<usize>)
    ensures
        hits@ == text_hits(conv@, needle@, 0),
{
    let low_needle = to_lower(needle);
    let mut hits: Vec<usize> = Vec::new();
    let mut i: usize = conv.len();
    while i > 0
        invariant
            i <= conv@.len(),
            low_needle@ == lowercase(needle@),
            hits@ == text_hits(conv@, needle@, i as int),
        decreases i,
    {
        let k = i - 1;
        if let Some(text) = &conv[k].text {
            let low = to_lower(text.as_str());
            if contains_str(low.as_str(), low_needle.as_str()) {
                hits.push(k);
            }
        }
        assert(hits@ =~= text_hits(conv@, needle@, k as int));
        i = k;
    }
    hits
}

/// The indices of the messages of `conv` sent by `user`, newest first.
pub fn find_user(conv: &Vec<Message>, user: &str) -> (hits: Vec<usize>)
    ensures
        hits@ == user_hits(conv@, user@, 0),
{
    let mut hits: Vec<usize> = Vec::new();
    let mut i: usize = conv.len();
    while i > 0
        invariant
            i <= conv@.len(),
            hits@ == user_hits(conv@, user@, i as int),
        decreases i,
    {
        let k = i - 1;
        if same_text(conv[k].sender.as_str(), user) {
            hits.push(k);
        }
        assert(hits@ =~= user_hits(conv@, user@, k as int));
        i = k;
    }
    hits
}

/// Whether `name` is one of `names`.
pub fn is_listed(names: &Vec<String>, name: &str) -> (r: bool)
    ensures
        r == texts(names@).contains(name@),
{
    let mut i: usize = 0;
    while i < names.len()
        invariant
            i <= names@.len(),
            forall|j: int| 0 <= j < i ==> names@[j]@ != name@,
        decreases names@.len() - i,
    {
        if same_text(names[i].as_str(), name) {
            assert(texts(names@)[i as int] == name@);
            return true;
        }
        i = i + 1;
    }
    assert(!texts(names@).contains(name@));
    false
}

impl Browser {
    /// The conversation index of the current message, the one shown before
    /// each prompt.
    pub fn shown_index(&self, t: &Thread) -> (i: usize)
        requires
            ready(*self, *t),
        ensures
            i == shown(*self, *t),
            i < t.conversation@.len(),
    {
        t.conversation.len() - 1 - self.current
    }

    /// Whether the step on `line` can be taken (see `step_defined`).
    pub fn can_step(&self, t: &Thread, line: &str) -> (r: bool)
        requires
            ready(*self, *t),
        ensures
            r == step_defined(*self, *t, line@),
    {
        let ws = split_words(line);
        if byte_len_below(line, 2) || ws.len() == 0 {
            return true;
        }
        let len = t.conversation.len();
        let w = ws[0].as_str();
        if same_text(w, "m") {
            if ws.len() == 1 {
                return !has_media_defect(&t.conversation[len - 1 - self.current]);
            }
            match parse_usize(ws[1].as_str()) {
                Some(n) => {
                    if 0 < n && n < len {
                        return !has_media_defect(&t.conversation[len - 1 - n]);
                    }
                    return true;
                },
                None => {
                    return true;
                },
            }
        }
        true
    }

    /// Takes the step that the input `line` asks for, and tells what to show
    /// and whether to show the current message before the next prompt.
    pub fn step(&mut self, t: &Thread, line: &str) -> (out: (BrowseReply, bool))
        requires
            ready(*old(self), *t),
            step_defined(*old(self), *t, line@),
        ensures
            (*final(self), out.0@, out.1) == browse_step(*old(self), *t, line@),
            ready(*final(self), *t),
    {
        let len = t.conversation.len();
        let last = len - 1;
        if byte_len_below(line, 2) {
            if !self.auto_forward {
                return (BrowseReplyOf::Nothing, true);
            } else if self.forwards {
                if self.current < last {
                    self.current = self.current + 1;
                    return (BrowseReplyOf::Nothing, true);
                } else {
                    return (BrowseReplyOf::ReachedEnd, false);
                }
            } else {
                if self.current > 0 {
                    self.current = self.current - 1;
                    return (BrowseReplyOf::Nothing, true);
                } else {
                    return (BrowseReplyOf::ReachedStart, false);
                }
            }
        }
        let ws = split_words(line);
        if ws.len() == 0 {
            return (BrowseReplyOf::Nothing, false);
        }
        let w = ws[0].as_str();
        assert(w@ == words(line@)[0]);
        if same_text(w, ".") || same_text(w, "=") || same_text(w, "+") {
            if self.current < last {
                self.current = self.current + 1;
                return (BrowseReplyOf::Nothing, true);
            } else {
                return (BrowseReplyOf::ReachedEnd, false);
            }
        }
        if same_text(w, ",") || same_text(w, "-") || same_text(w, "_") {
            if self.current > 0 {
                self.current = self.current - 1;
                return (BrowseReplyOf::Nothing, true);
            } else {
                return (BrowseReplyOf::ReachedStart, false);
            }
        }
        if same_text(w, "s") {
            self.current = 0;
            return (BrowseReplyOf::Nothing, true);
        }
        if same_text(w, "e") {
            self.current = last;
            return (BrowseReplyOf::Nothing, true);
        }
        if same_text(w, "af") {
            self.auto_forward = !self.auto_forward;
            return (BrowseReplyOf::AutoForward(self.auto_forward), false);
        }
        if same_text(w, "raf") {
            self.forwards = !self.forwards;
            return (BrowseReplyOf::Direction(self.forwards), false);
        }
        if same_text(w, "m") {
            if ws.len() == 1 {
                return (BrowseReplyOf::Media(last - self.current), true);
            }
            return match parse_usize(ws[1].as_str()) {
                Some(n) => if 0 < n && n < len {
                    (BrowseReplyOf::Media(last - n), true)
                } else {
                    (BrowseReplyOf::Nothing, true)
                },
                None => (BrowseReplyOf::Nothing, true),
            };
        }
        if same_text(w, "l") {
            if ws.len() == 1 {
                return (BrowseReplyOf::Likes(last - self.current), false);
            }
            return match parse_usize(ws[1].as_str()) {
                Some(n) => if 0 < n && n < len {
                    (BrowseReplyOf::Likes(last - n), false)
                } else {
                    (BrowseReplyOf::IdOutOfRange(len), false)
                },
                None => (BrowseReplyOf::LikesSyntax, false),
            };
        }
        if same_text(w, "f") {
            if ws.len() == 1 {
                return (BrowseReplyOf::FindSyntax, false);
            }
            let needle = join_words(&ws, 1);
            if byte_len_below(needle.as_str(), 3) {
                return (BrowseReplyOf::NeedleTooShort, false);
            }
            let hits = find_text(&t.conversation, needle.as_str());
            return (BrowseReplyOf::Found(needle, hits), false);
        }
        if same_text(w, "fu") {
            if ws.len() != 2 {
                return (BrowseReplyOf::FindUserSyntax, false);
            }
            let user = ws[1].as_str();
            if !is_listed(&t.participants, user) {
                return (BrowseReplyOf::UserNotFound, false);
            }
            let hits = find_user(&t.conversation, user);
            return (BrowseReplyOf::FoundUser(user.to_owned(), hits), false);
        }
        if same_text(w, "h") {
            return (BrowseReplyOf::Help, true);
        }
        if same_text(w, "q") {
            return (BrowseReplyOf::Quit, true);
        }
        match parse_usize(w) {
            Some(n) => if 0 < n && n < len {
                self.current = n;
                (BrowseReplyOf::Nothing, true)
            } else {
                (BrowseReplyOf::IdOutOfRange(len), true)
            },
            None => (BrowseReplyOf::Unknown, true),
        }
    }
}

} // verus!
