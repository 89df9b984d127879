//! Thread mode: the main console. Each input line is one step of a state
//! machine whose state is the selected thread; the step tells what to show.
use crate::browse::{find_text, find_user, is_listed, text_hits, user_hits};
use crate::model::{texts, Thread};
use crate::stats::Interval;
use crate::text::{
    byte_len_below, join_words, joined, parse_usize, parsed_usize, same_text, split_words, words,
};
use vstd::prelude::*;
use vstd::utf8::encode_utf8;

verus! {

broadcast use vstd::string::group_string_axioms;

/// The selected thread. It may be one past the last thread: `t` accepts a
/// thread id equal to the number of threads.
#[derive(Clone, Copy, PartialEq, Eq, Debug, Structural)]
pub struct Console {
    pub current: usize,
}

/// Why a thread id was refused.
#[derive(Clone, Copy, PartialEq, Eq, Debug, Structural)]
pub enum IdComplaint {
    /// Larger than the number of threads, which it carries.
    TooLarge(usize),
    /// No number.
    NotInt,
}

/// What one step asks the console to show. `T` is a text, `G` the hits per
/// thread.
#[derive(Debug)]
pub enum ConsoleReplyOf<T, G> {
    /// Nothing.
    Nothing,
    /// The line of every thread.
    ListThreads,
    /// The participants of the selected thread.
    Participants,
    /// The selected thread id.
    CurrentThread,
    /// The facts of this thread, after this complaint about the id given.
    ThreadInfo(usize, Option<IdComplaint>),
    /// The leaderboard of the selected thread.
    Stats,
    /// Messages of the selected thread per period.
    OverTime(Interval),
    /// The gaps between messages of the selected thread.
    DeltaTime,
    /// The renamings of the selected thread.
    NameChanges,
    /// `t` kept the selected thread, for this reason.
    ThreadRefused(IdComplaint),
    /// `t` without an id.
    ChangeThreadSyntax,
    /// Enter message mode on the selected thread.
    Browse,
    /// The needle and, for each thread in order, its id and the conversation
    /// indices of the messages whose text holds the needle, newest first.
    GlobalFind(T, G),
    /// `gf` without a needle.
    GlobalFindSyntax,
    /// A needle shorter than three bytes.
    NeedleTooShort,
    /// The user name and, for each thread in order, its id and the indices of
    /// the user's messages, newest first.
    GlobalFindUser(T, G),
    /// `gfu` without exactly one user name.
    GlobalFindUserSyntax,
    /// The user takes part in no thread.
    UserNotFound,
    /// Ask the settings again.
    Setup,
    /// The help text.
    Help,
    /// Leave the program.
    Quit,
    /// `?`
    Unknown,
}

pub type ConsoleReply = ConsoleReplyOf<String, Vec<(usize, Vec<usize>)>>;

pub type ConsoleReplyView = ConsoleReplyOf<Seq<char>, Seq<(usize, Seq<usize>)>>;

/// The abstract content of per-thread hits.
pub open spec fn hits_view(g: Seq<(usize, Vec<usize>)>) -> Seq<(usize, Seq<usize>)> {
    g.map_values(|e: (usize, Vec<usize>)| (e.0, e.1@))
}

impl View for ConsoleReplyOf<String, Vec<(usize, Vec<usize>)>> {
    type V = ConsoleReplyView;

    open spec fn view(&self) -> ConsoleReplyView {
        match self {
            ConsoleReplyOf::Nothing => ConsoleReplyOf::Nothing,
            ConsoleReplyOf::ListThreads => ConsoleReplyOf::ListThreads,
            ConsoleReplyOf::Participants => ConsoleReplyOf::Participants,
            ConsoleReplyOf::CurrentThread => ConsoleReplyOf::CurrentThread,
            ConsoleReplyOf::ThreadInfo(i, c) => ConsoleReplyOf::ThreadInfo(*i, *c),
            ConsoleReplyOf::Stats => ConsoleReplyOf::Stats,
            ConsoleReplyOf::OverTime(iv) => ConsoleReplyOf::OverTime(*iv),
            ConsoleReplyOf::DeltaTime => ConsoleReplyOf::DeltaTime,
            ConsoleReplyOf::NameChanges => ConsoleReplyOf::NameChanges,
            ConsoleReplyOf::ThreadRefused(c) => ConsoleReplyOf::ThreadRefused(*c),
            ConsoleReplyOf::ChangeThreadSyntax => ConsoleReplyOf::ChangeThreadSyntax,
            ConsoleReplyOf::Browse => ConsoleReplyOf::Browse,
            ConsoleReplyOf::GlobalFind(t, g) => ConsoleReplyOf::GlobalFind(t@, hits_view(g@)),
            ConsoleReplyOf::GlobalFindSyntax => ConsoleReplyOf::GlobalFindSyntax,
            ConsoleReplyOf::NeedleTooShort => ConsoleReplyOf::NeedleTooShort,
            ConsoleReplyOf::GlobalFindUser(t, g) => ConsoleReplyOf::GlobalFindUser(
                t@,
                hits_view(g@),
            ),
            ConsoleReplyOf::GlobalFindUserSyntax => ConsoleReplyOf::GlobalFindUserSyntax,
            ConsoleReplyOf::UserNotFound => ConsoleReplyOf::UserNotFound,
            ConsoleReplyOf::Setup => ConsoleReplyOf::Setup,
            ConsoleReplyOf::Help => ConsoleReplyOf::Help,
            ConsoleReplyOf::Quit => ConsoleReplyOf::Quit,
            ConsoleReplyOf::Unknown => ConsoleReplyOf::Unknown,
        }
    }
}

/// For each thread of `archive`, its id and the messages whose text holds
/// `needle`.
pub open spec fn global_text_hits(archive: Seq<Thread>, needle: Seq<char>) -> Seq<
    (usize, Seq<usize>),
> {
    Seq::new(
        archive.len(),
        |i: int| (i as usize, text_hits(archive[i].conversation@, needle, 0)),
    )
}

/// For each thread of `archive`, its id and the messages sent by `user`.
pub open spec fn global_user_hits(archive: Seq<Thread>, user: Seq<char>) -> Seq<
    (usize, Seq<usize>),
> {
    Seq::new(archive.len(), |i: int| (i as usize, user_hits(archive[i].conversation@, user, 0)))
}

/// `user` takes part in some thread of `archive`.
pub open spec fn takes_part(archive: Seq<Thread>, user: Seq<char>) -> bool {
    exists|i: int| 0 <= i < archive.len() && texts(#[trigger] archive[i].participants@).contains(user)
}

/// The period length that `ams-mot` takes from its argument: `d`, `m` or
/// `y`, and months otherwise.
pub open spec fn interval_of(ws: Seq<Seq<char>>) -> Interval {
    if ws.len() > 1 {
        if ws[1] == "d"@ {
            Interval::Day
        } else if ws[1] == "m"@ {
            Interval::Month
        } else if ws[1] == "y"@ {
            Interval::Year
        } else {
            Interval::Month
        }
    } else {
        Interval::Month
    }
}

/// The step that one input line makes on the console over `archive`.
pub open spec fn console_step(c: Console, archive: Seq<Thread>, line: Seq<char>) -> (
    Console,
    ConsoleReplyView,
) {
    let len = archive.len();
    let ws = words(line);
    if encode_utf8(line).len() == 1 || ws.len() == 0 {
        (c, ConsoleReplyOf::Nothing)
    } else {
        let w = ws[0];
        if w == "lat"@ {
            (c, ConsoleReplyOf::ListThreads)
        } else if w == "p"@ {
            (c, ConsoleReplyOf::Participants)
        } else if w == "ct"@ {
            (c, ConsoleReplyOf::CurrentThread)
        } else if w == "ti"@ {
            if ws.len() < 2 {
                (c, ConsoleReplyOf::ThreadInfo(c.current, None))
            } else {
                match parsed_usize(ws[1]) {
                    Some(n) => if n <= len {
                        (c, ConsoleReplyOf::ThreadInfo(n as usize, None))
                    } else {
                        (
                            c,
                            ConsoleReplyOf::ThreadInfo(
                                c.current,
                                Some(IdComplaint::TooLarge(len as usize)),
                            ),
                        )
                    },
                    None => (c, ConsoleReplyOf::ThreadInfo(c.current, Some(IdComplaint::NotInt))),
                }
            }
        } else if w == "ams"@ {
            (c, ConsoleReplyOf::Stats)
        } else if w == "ams-mot"@ {
            (c, ConsoleReplyOf::OverTime(interval_of(ws)))
        } else if w == "ams-dt"@ {
            (c, ConsoleReplyOf::DeltaTime)
        } else if w == "n"@ {
            (c, ConsoleReplyOf::NameChanges)
        } else if w == "t"@ {
            if ws.len() > 1 {
                match parsed_usize(ws[1]) {
                    Some(n) => if n <= len {
                        (Console { current: n as usize }, ConsoleReplyOf::Nothing)
                    } else {
                        (c, ConsoleReplyOf::ThreadRefused(IdComplaint::TooLarge(len as usize)))
                    },
                    None => (c, ConsoleReplyOf::ThreadRefused(IdComplaint::NotInt)),
                }
            } else {
                (c, ConsoleReplyOf::ChangeThreadSyntax)
            }
        } else if w == "m!"@ {
            (c, ConsoleReplyOf::Browse)
        } else if w == "gf"@ {
            if ws.len() == 1 {
                (c, ConsoleReplyOf::GlobalFindSyntax)
            } else {
                let needle = joined(ws.subrange(1, ws.len() as int));
                if encode_utf8(needle).len() < 3 {
                    (c, ConsoleReplyOf::NeedleTooShort)
                } else {
                    (c, ConsoleReplyOf::GlobalFind(needle, global_text_hits(archive, needle)))
                }
            }
        } else if w == "gfu"@ {
            if ws.len() != 2 {
                (c, ConsoleReplyOf::GlobalFindUserSyntax)
            } else if !takes_part(archive, ws[1]) {
                (c, ConsoleReplyOf::UserNotFound)
            } else {
                (c, ConsoleReplyOf::GlobalFindUser(ws[1], global_user_hits(archive, ws[1])))
            }
        } else if w == "fts"@ {
            (c, ConsoleReplyOf::Setup)
        } else if w == "h"@ {
            (c, ConsoleReplyOf::Help)
        } else if w == "q"@ {
            (c, ConsoleReplyOf::Quit)
        } else {
            (c, ConsoleReplyOf::Unknown)
        }
    }
}

/// Whether `s` takes exactly one byte.
fn one_byte(s: &str) -> (r: bool)
    ensures
        r == (encode_utf8(s@).len() == 1),
{
    byte_len_below(s, 2) && !byte_len_below(s, 1)
}

/// The hits of `needle` in every thread of `archive`.
fn global_find(archive: &Vec<Thread>, needle: &str) -> (g: Vec<(usize, Vec<usize>)>)
    ensures
        hits_view(g@) == global_text_hits(archive@, needle@),
{
    let mut g: Vec<(usize, Vec<usize>)> = Vec::new();
    let mut i: usize = 0;
    while i < archive.len()
        invariant
            i <= archive@.len(),
            hits_view(g@) == global_text_hits(archive@, needle@).take(i as int),
        decreases archive@.len() - i,
    {
        let hits = find_text(&archive[i].conversation, needle);
        let ghost prev = hits_view(g@);
        g.push((i, hits));
        assert(hits_view(g@) =~= prev.push(global_text_hits(archive@, needle@)[i as int]));
        assert(hits_view(g@) =~= global_text_hits(archive@, needle@).take(i + 1));
        i = i + 1;
    }
    assert(global_text_hits(archive@, needle@).take(archive@.len() as int) =~= global_text_hits(
        archive@,
        needle@,
    ));
    g
}

/// The messages of `user` in every thread of `archive`.
fn global_find_user(archive: &Vec<Thread>, user: &str) -> (g: Vec<(usize, Vec<usize>)>)
    ensures
        hits_view(g@) == global_user_hits(archive@, user@),
{
    let mut g: Vec<(usize, Vec<usize>)> = Vec::new();
    let mut i: usize = 0;
    while i < archive.len()
        invariant
            i <= archive@.len(),
            hits_view(g@) == global_user_hits(archive@, user@).take(i as int),
        decreases archive@.len() - i,
    {
        let hits = find_user(&archive[i].conversation, user);
        let ghost prev = hits_view(g@);
        g.push((i, hits));
        assert(hits_view(g@) =~= prev.push(global_user_hits(archive@, user@)[i as int]));
        assert(hits_view(g@) =~= global_user_hits(archive@, user@).take(i + 1));
        i = i + 1;
    }
    assert(global_user_hits(archive@, user@).take(archive@.len() as int) =~= global_user_hits(
        archive@,
        user@,
    ));
    g
}

/// Whether `user` takes part in some thread of `archive`.
fn is_participant(archive: &Vec<Thread>, user: &str) -> (r: bool)
    ensures
        r == takes_part(archive@, user@),
{
    let mut i: usize = 0;
    while i < archive.len()
        invariant
            i <= archive@.len(),
            forall|j: int| 0 <= j < i ==> !texts(#[trigger] archive@[j].participants@).contains(user@),
        decreases archive@.len() - i,
    {
        if is_listed(&archive[i].participants, user) {
            return true;
        }
        i = i + 1;
    }
    false
}

impl Console {
    /// The first thread selected.
    pub fn new() -> (c: Console)
        ensures
            c.current == 0,
    {
        Console { current: 0 }
    }

    /// Takes the step that the input `line` asks for.
    pub fn step(&mut self, archive: &Vec<Thread>, line: &str) -> (reply: ConsoleReply)
        ensures
            (*final(self), reply@) == console_step(*old(self), archive@, line@),
    {
        let len = archive.len();
        let ws = split_words(line);
        if one_byte(line) || ws.len() == 0 {
            return ConsoleReplyOf::Nothing;
        }
        let w = ws[0].as_str();
        if same_text(w, "lat") {
            return ConsoleReplyOf::ListThreads;
        }
        if same_text(w, "p") {
            return ConsoleReplyOf::Participants;
        }
        if same_text(w, "ct") {
            return ConsoleReplyOf::CurrentThread;
        }
        if same_text(w, "ti") {
            if ws.len() < 2 {
                return ConsoleReplyOf::ThreadInfo(self.current, None);
            }
            return match parse_usize(ws[1].as_str()) {
                Some(n) => if n <= len {
                    ConsoleReplyOf::ThreadInfo(n, None)
                } else {
                    ConsoleReplyOf::ThreadInfo(self.current, Some(IdComplaint::TooLarge(len)))
                },
                None => ConsoleReplyOf::ThreadInfo(self.current, Some(IdComplaint::NotInt)),
            };
        }
        if same_text(w, "ams") {
            return ConsoleReplyOf::Stats;
        }
        if same_text(w, "ams-mot") {
            let mut iv = Interval::Month;
            if ws.len() > 1 {
                let a = ws[1].as_str();
                if same_text(a, "d") {
                    iv = Interval::Day;
                } else if same_text(a, "m") {
                    iv = Interval::Month;
                } else if same_text(a, "y") {
                    iv = Interval::Year;
                }
            }
            return ConsoleReplyOf::OverTime(iv);
        }
        if same_text(w, "ams-dt") {
            return ConsoleReplyOf::DeltaTime;
        }
        if same_text(w, "n") {
            return ConsoleReplyOf::NameChanges;
        }
        if same_text(w, "t") {
            if ws.len() > 1 {
                return match parse_usize(ws[1].as_str()) {
                    Some(n) => if n <= len {
                        self.current = n;
                        ConsoleReplyOf::Nothing
                    } else {
                        ConsoleReplyOf::ThreadRefused(IdComplaint::TooLarge(len))
                    },
                    None => ConsoleReplyOf::ThreadRefused(IdComplaint::NotInt),
                };
            }
            return ConsoleReplyOf::ChangeThreadSyntax;
        }
        if same_text(w, "m!") {
            return ConsoleReplyOf::Browse;
        }
        if same_text(w, "gf") {
            if ws.len() == 1 {
                return ConsoleReplyOf::GlobalFindSyntax;
            }
            let needle = join_words(&ws, 1);
            if byte_len_below(needle.as_str(), 3) {
                return ConsoleReplyOf::NeedleTooShort;
            }
            let g = global_find(archive, needle.as_str());
            return ConsoleReplyOf::GlobalFind(needle, g);
        }
        if same_text(w, "gfu") {
            if ws.len() != 2 {
                return ConsoleReplyOf::GlobalFindUserSyntax;
            }
            let user = ws[1].as_str();
            if !is_participant(archive, user) {
                return ConsoleReplyOf::UserNotFound;
            }
            let g = global_find_user(archive, user);
            return ConsoleReplyOf::GlobalFindUser(user.to_owned(), g);
        }
        if same_text(w, "fts") {
            return ConsoleReplyOf::Setup;
        }
        if same_text(w, "h") {
            return ConsoleReplyOf::Help;
        }
        if same_text(w, "q") {
            return ConsoleReplyOf::Quit;
        }
        ConsoleReplyOf::Unknown
    }
}

} // verus!
