//! Listings over the archive: the line for each thread, the facts of one
//! thread, and the renamings of a group.
use crate::model::{texts, Message, Thread};
use crate::render::{line_view, lines_view, plain, segment, segment_of, Segment, Style};
use crate::text::{
    chars_of, contains_str, contains_text, decimal, nth_piece, nth_piece_of, push_decimal,
    same_text, show_time, shown_time, string_of,
};
use vstd::prelude::*;

verus! {

/// The position of the first `me` in `ps` at or after `from`, or `ps.len()`.
pub open spec fn first_index(ps: Seq<Seq<char>>, me: Seq<char>, from: int) -> int
    decreases ps.len() - from,
{
    if from < 0 || from >= ps.len() {
        ps.len() as int
    } else if ps[from] == me {
        from
    } else {
        first_index(ps, me, from + 1)
    }
}

/// The participants other than (the first listing of) `me`.
pub open spec fn others(ps: Seq<Seq<char>>, me: Seq<char>) -> Seq<Seq<char>> {
    ps.remove(first_index(ps, me, 0))
}

/// The line for thread `i` can be made: the thread has one participant, or
/// `me` is among them.
pub open spec fn overview_defined(t: Thread, me: Seq<char>) -> bool {
    t.participants@.len() == 1 || texts(t.participants@).contains(me)
}

/// The line that lists thread `i`; `current` is the selected thread and `me`
/// the user whose archive it is.
pub open spec fn overview_line(t: Thread, i: nat, current: nat, me: Seq<char>) -> Seq<
    (Seq<char>, Style),
> {
    let ps = texts(t.participants@);
    let id = (decimal(i), Style::Name);
    let mark = if i == current {
        ">>> "@
    } else {
        "    "@
    };
    if ps.len() == 1 {
        seq![plain("    thread "@), id, plain(" with just yourself"@)]
    } else {
        let o = others(ps, me);
        if o.len() == 1 {
            seq![plain(mark + "thread "@), id, plain(" with "@), (o[0], Style::Name)]
        } else {
            seq![
                plain(mark + "thread "@),
                id,
                plain(" with "@ + decimal(ps.len()) + " people including "@),
                (o[0], Style::Name),
                plain(", "@),
                (o[1], Style::Name),
                plain(" "@),
            ]
        }
    }
}

/// The position of the first `me` in `ps`, or `ps.len()`.
fn position_of(ps: &Vec<String>, me: &str) -> (i: usize)
    ensures
        i == first_index(texts(ps@), me@, 0),
{
    let ghost v = texts(ps@);
    let mut i: usize = 0;
    while i < ps.len()
        invariant
            v == texts(ps@),
            i <= ps@.len(),
            first_index(v, me@, 0) == first_index(v, me@, i as int),
        decreases ps@.len() - i,
    {
        if same_text(ps[i].as_str(), me) {
            return i;
        }
        i = i + 1;
    }
    i
}

/// Whether the line of thread `t` can be made.
pub fn can_list(t: &Thread, me: &str) -> (r: bool)
    ensures
        r == overview_defined(*t, me@),
{
    if t.participants.len() == 1 {
        return true;
    }
    let p = position_of(&t.participants, me);
    proof {
        lemma_first_index(texts(t.participants@), me@, 0);
    }
    p < t.participants.len()
}

/// Where `first_index` lands.
proof fn lemma_first_index(ps: Seq<Seq<char>>, me: Seq<char>, from: int)
    requires
        0 <= from <= ps.len(),
    ensures
        from <= first_index(ps, me, from) <= ps.len(),
        first_index(ps, me, from) < ps.len() ==> ps[first_index(ps, me, from)] == me,
        first_index(ps, me, from) == ps.len() ==> forall|j: int|
            from <= j < ps.len() ==> ps[j] != me,
    decreases ps.len() - from,
{
    if from < ps.len() && ps[from] != me {
        lemma_first_index(ps, me, from + 1);
    }
}

/// The line that lists thread `t`, numbered `i`.
pub fn overview_line_of(t: &Thread, i: usize, current: usize, me: &str) -> (line: Vec<Segment>)
    requires
        overview_defined(*t, me@),
    ensures
        line_view(line@) == overview_line(*t, i as nat, current as nat, me@),
{
    let ghost ps = texts(t.participants@);
    let mut id = String::new();
    push_decimal(&mut id, i as u64);
    let mut line: Vec<Segment> = Vec::new();
    if t.participants.len() == 1 {
        line.push(segment_of("    thread ", Style::Plain));
        line.push(segment(id, Style::Name));
        line.push(segment_of(" with just yourself", Style::Plain));
        assert(line_view(line@) =~= overview_line(*t, i as nat, current as nat, me@));
        return line;
    }
    let p = position_of(&t.participants, me);
    proof {
        lemma_first_index(ps, me@, 0);
    }
    let mut head = if i == current {
        ">>> ".to_owned()
    } else {
        "    ".to_owned()
    };
    head.append("thread ");
    line.push(segment(head, Style::Plain));
    line.push(segment(id, Style::Name));
    let ghost o = others(ps, me@);
    let n_others = t.participants.len() - 1;
    let first = if p == 0 {
        1
    } else {
        0
    };
    assert(ps[first as int] == o[0]);
    if n_others == 1 {
        line.push(segment_of(" with ", Style::Plain));
        line.push(segment_of(t.participants[first].as_str(), Style::Name));
        assert(line_view(line@) =~= overview_line(*t, i as nat, current as nat, me@));
        return line;
    }
    let second = if p <= 1 {
        2
    } else {
        1
    };
    assert(ps[second as int] == o[1]);
    let mut with = " with ".to_owned();
    push_decimal(&mut with, t.participants.len() as u64);
    with.append(" people including ");
    line.push(segment(with, Style::Plain));
    line.push(segment_of(t.participants[first].as_str(), Style::Name));
    line.push(segment_of(", ", Style::Plain));
    line.push(segment_of(t.participants[second].as_str(), Style::Name));
    line.push(segment_of(" ", Style::Plain));
    assert(line_view(line@) =~= overview_line(*t, i as nat, current as nat, me@));
    line
}

/// The lines that list the threads of `archive`, in order; none where one
/// of them cannot be listed.
pub fn overview(archive: &Vec<Thread>, current: usize, me: &str) -> (r: Option<Vec<Vec<Segment>>>)
    ensures
        r is None <==> exists|i: int|
            0 <= i < archive@.len() && !overview_defined(#[trigger] archive@[i], me@),
        r matches Some(ls) ==> lines_view(ls@) == Seq::new(
            archive@.len(),
            |i: int| overview_line(archive@[i], i as nat, current as nat, me@),
        ),
{
    let mut lines: Vec<Vec<Segment>> = Vec::new();
    let mut i: usize = 0;
    while i < archive.len()
        invariant
            i <= archive@.len(),
            forall|j: int| 0 <= j < i ==> overview_defined(#[trigger] archive@[j], me@),
            lines_view(lines@) == Seq::new(
                i as nat,
                |j: int| overview_line(archive@[j], j as nat, current as nat, me@),
            ),
        decreases archive@.len() - i,
    {
        if !can_list(&archive[i], me) {
            return None;
        }
        let line = overview_line_of(&archive[i], i, current, me);
        let ghost prev = lines_view(lines@);
        lines.push(line);
        assert(lines_view(lines@) =~= prev.push(
            overview_line(archive@[i as int], i as nat, current as nat, me@),
        ));
        assert(lines_view(lines@) =~= Seq::new(
            (i + 1) as nat,
            |j: int| overview_line(archive@[j], j as nat, current as nat, me@),
        ));
        i = i + 1;
    }
    Some(lines)
}

/// The facts of a thread that `ti` shows.
pub struct ThreadInfo {
    pub participants: usize,
    /// The timestamp of the oldest message.
    pub first_date: String,
    /// The timestamp of the newest message.
    pub latest_date: String,
    pub messages: usize,
}

/// The facts of thread `t`.
pub fn thread_info(t: &Thread) -> (info: ThreadInfo)
    requires
        t.conversation@.len() >= 1,
    ensures
        info.participants == t.participants@.len(),
        info.first_date@ == t.conversation@.last().created_at@,
        info.latest_date@ == t.conversation@[0].created_at@,
        info.messages == t.conversation@.len(),
{
    let n = t.conversation.len();
    ThreadInfo {
        participants: t.participants.len(),
        first_date: t.conversation[n - 1].created_at.clone(),
        latest_date: t.conversation[0].created_at.clone(),
        messages: n,
    }
}

/// The action of `m` renames the group.
pub open spec fn renames(m: Message) -> bool {
    m.action is Some && contains_text(m.action->0@, "named the group"@)
}

/// The action of `m` mentions a renaming but has no ` named the group `
/// to split at.
pub open spec fn rename_defect(m: Message) -> bool {
    renames(m) && !contains_text(m.action->0@, " named the group "@)
}

/// The line that tells a renaming: when, who (and who sent it, where that
/// differs), and the new name.
pub open spec fn rename_line(m: Message) -> Seq<(Seq<char>, Style)> {
    let a = m.action->0@;
    let who = nth_piece(a, " named the group "@, 0)->0;
    let name = nth_piece(a, " named the group "@, 1)->0;
    let when = (shown_time(m.created_at@), Style::Time);
    if who == m.sender@ {
        seq![when, plain(": "@), (who, Style::Name), plain(" named it '"@ + name + "'"@)]
    } else {
        seq![
            when,
            plain(": "@),
            (who, Style::Name),
            plain(" ("@),
            (m.sender@, Style::Note),
            plain(") named it '"@ + name + "'"@),
        ]
    }
}

/// The renaming lines of `conv[from..]`, from the highest index down (that
/// is, the oldest first).
pub open spec fn rename_lines(conv: Seq<Message>, from: int) -> Seq<Seq<(Seq<char>, Style)>>
    decreases conv.len() - from,
{
    if from < 0 || from >= conv.len() {
        seq![]
    } else {
        rename_lines(conv, from + 1) + (if renames(conv[from]) {
            seq![rename_line(conv[from])]
        } else {
            seq![]
        })
    }
}

/// The renaming line of message `m`, if it renames the group.
fn rename_line_of(m: &Message) -> (r: Option<Vec<Segment>>)
    requires
        !rename_defect(*m),
    ensures
        r is None <==> !renames(*m),
        r matches Some(l) ==> line_view(l@) == rename_line(*m),
{
    let a = match &m.action {
        Some(a) => a,
        None => {
            return None;
        },
    };
    if !contains_str(a.as_str(), "named the group") {
        return None;
    }
    let cs = chars_of(a.as_str());
    let sep = chars_of(" named the group ");
    let who = nth_piece_of(&cs, &sep, 0);
    let name = nth_piece_of(&cs, &sep, 1);
    proof {
        crate::text::lemma_first_occurrence(cs@, sep@, 0);
        assert(crate::text::first_occurrence(cs@, sep@, 0) is Some);
        reveal_with_fuel(nth_piece, 2);
        assert(nth_piece(cs@, sep@, 1) is Some);
    }
    let who = string_of(who.unwrap().as_slice());
    let name = string_of(name.unwrap().as_slice());
    assert(who@ == nth_piece(m.action->0@, " named the group "@, 0)->0);
    assert(name@ == nth_piece(m.action->0@, " named the group "@, 1)->0);
    let mut line: Vec<Segment> = Vec::new();
    line.push(segment(show_time(m.created_at.as_str()), Style::Time));
    line.push(segment_of(": ", Style::Plain));
    let same = same_text(who.as_str(), m.sender.as_str());
    line.push(segment(who, Style::Name));
    if same {
        let mut tail = " named it '".to_owned();
        tail.append(name.as_str());
        tail.append("'");
        line.push(segment(tail, Style::Plain));
    } else {
        line.push(segment_of(" (", Style::Plain));
        line.push(segment_of(m.sender.as_str(), Style::Note));
        let mut tail = ") named it '".to_owned();
        tail.append(name.as_str());
        tail.append("'");
        line.push(segment(tail, Style::Plain));
    }
    assert(line_view(line@) =~= rename_line(*m));
    Some(line)
}

/// The lines that tell the renamings of thread `t`, oldest first; none
/// where a renaming cannot be split.
pub fn name_changes(t: &Thread) -> (r: Option<Vec<Vec<Segment>>>)
    ensures
        r is None <==> exists|i: int|
            0 <= i < t.conversation@.len() && rename_defect(#[trigger] t.conversation@[i]),
        r matches Some(ls) ==> lines_view(ls@) == rename_lines(t.conversation@, 0),
{
    let conv = &t.conversation;
    let mut lines: Vec<Vec<Segment>> = Vec::new();
    let mut i: usize = conv.len();
    while i > 0
        invariant
            conv == &t.conversation,
            i <= conv@.len(),
            forall|j: int| i <= j < conv@.len() ==> !rename_defect(#[trigger] conv@[j]),
            lines_view(lines@) == rename_lines(conv@, i as int),
        decreases i,
    {
        let k = i - 1;
        let m = &conv[k];
        let defect = match &m.action {
            Some(a) => contains_str(a.as_str(), "named the group") && !contains_str(
                a.as_str(),
                " named the group ",
            ),
            None => false,
        };
        if defect {
            return None;
        }
        let ghost prev = lines_view(lines@);
        match rename_line_of(m) {
            Some(l) => {
                lines.push(l);
                assert(lines_view(lines@) =~= prev.push(rename_line(conv@[k as int])));
            },
            None => {},
        }
        assert(lines_view(lines@) =~= rename_lines(conv@, k as int));
        i = k;
    }
    Some(lines)
}

} // verus!
