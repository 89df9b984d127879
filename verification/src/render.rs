//! Rendering of messages, likes and media as lines of styled segments. A
//! console turns each style into its colours.
use crate::model::{Like, Message};
use crate::text::{decimal, push_decimal, shown_time, show_time};
use vstd::prelude::*;

verus! {

/// How a piece of text is shown.
#[derive(Clone, Copy, PartialEq, Eq, Debug, Structural)]
pub enum Style {
    /// As it is.
    Plain,
    /// A user's name or an identifier: blue and bold.
    Name,
    /// A timestamp: green.
    Time,
    /// Likes and hearts: red.
    Love,
    /// A remark beside a name, or a position: yellow.
    Note,
}

/// A piece of text with its style.
pub struct Segment {
    pub text: String,
    pub style: Style,
}

impl View for Segment {
    type V = (Seq<char>, Style);

    open spec fn view(&self) -> (Seq<char>, Style) {
        (self.text@, self.style)
    }
}

/// The abstract content of a line: its segments' texts and styles.
pub open spec fn line_view(l: Seq<Segment>) -> Seq<(Seq<char>, Style)> {
    l.map_values(|s: Segment| s@)
}

/// The abstract content of several lines.
pub open spec fn lines_view(ls: Seq<Vec<Segment>>) -> Seq<Seq<(Seq<char>, Style)>> {
    ls.map_values(|l: Vec<Segment>| line_view(l@))
}

/// A plain segment.
pub open spec fn plain(s: Seq<char>) -> (Seq<char>, Style) {
    (s, Style::Plain)
}

/// A segment holding `text` in style `style`.
pub fn segment(text: String, style: Style) -> (s: Segment)
    ensures
        s@ == (text@, style),
{
    Segment { text, style }
}

/// A segment holding a copy of the text `t` in style `style`.
pub fn segment_of(t: &str, style: Style) -> (s: Segment)
    ensures
        s@ == (t@, style),
{
    Segment { text: t.to_owned(), style }
}

/// The like counter shown after a message: `[<3 xN]` in red, or nothing.
pub open spec fn likes_badge(m: Message) -> Seq<(Seq<char>, Style)> {
    match m.likes {
        Some(l) => seq![("[<3 x"@ + decimal(l@.len()) + "]"@, Style::Love)],
        None => seq![],
    }
}

/// The line that shows a message: who sent it and when, then what it is,
/// decided by the first part present in the order text, media, media url,
/// shared media, action, heart, video call action, live video invite.
pub open spec fn message_line(m: Message) -> Seq<(Seq<char>, Style)> {
    let head = seq![
        plain("  user "@),
        (m.sender@, Style::Name),
        plain(" on "@),
        (shown_time(m.created_at@), Style::Time),
    ];
    if m.text is Some {
        head + seq![plain(" wrote: "@)] + likes_badge(m) + seq![plain("\n  "@ + m.text->0@)]
    } else if m.media is Some {
        head + seq![plain(" sent media. "@)] + likes_badge(m)
    } else if m.media_url is Some {
        head + seq![plain(" sent media_url media.... "@)] + likes_badge(m)
    } else if m.media_owner is Some {
        head + seq![plain(" sent media from "@ + m.media_owner->0@ + ". "@)] + likes_badge(m)
    } else if m.action is Some {
        head + seq![plain(" took action '"@ + m.action->0@ + "'"@)]
    } else if m.heart is Some {
        head + seq![plain(" sent "@), ("<3"@, Style::Love)]
    } else if m.video_call_action is Some {
        head + seq![plain(" took vidcall action '"@ + m.video_call_action->0@ + "'"@)]
    } else if m.live_video_invite is Some {
        head + seq![plain(" sent a live video invite"@)]
    } else {
        head + seq![plain(" did ???"@)]
    }
}

/// Appends the like counter of `m`, if it has likes.
fn push_likes_badge(line: &mut Vec<Segment>, m: &Message)
    ensures
        line_view(final(line)@) == line_view(old(line)@) + likes_badge(*m),
{
    match &m.likes {
        Some(l) => {
            let mut t = "[<3 x".to_owned();
            push_decimal(&mut t, l.len() as u64);
            t.append("]");
            line.push(segment(t, Style::Love));
            assert(line_view(line@) =~= line_view(old(line)@) + likes_badge(*m));
        },
        None => {
            assert(line_view(line@) =~= line_view(old(line)@) + likes_badge(*m));
        },
    }
}

/// Three texts joined.
fn join3(a: &str, b: &str, c: &str) -> (s: String)
    ensures
        s@ == a@ + b@ + c@,
{
    let mut s = a.to_owned();
    s.append(b);
    s.append(c);
    s
}

/// The line that shows message `m`.
pub fn describe_message(m: &Message) -> (line: Vec<Segment>)
    ensures
        line_view(line@) == message_line(*m),
{
    let mut line: Vec<Segment> = Vec::new();
    line.push(segment_of("  user ", Style::Plain));
    line.push(segment_of(m.sender.as_str(), Style::Name));
    line.push(segment_of(" on ", Style::Plain));
    line.push(segment(show_time(m.created_at.as_str()), Style::Time));
    let ghost head = line_view(line@);
    if let Some(t) = &m.text {
        line.push(segment_of(" wrote: ", Style::Plain));
        let ghost before = line_view(line@);
        assert(before =~= head + seq![plain(" wrote: "@)]);
        push_likes_badge(&mut line, m);
        let ghost middle = line_view(line@);
        let mut body = "\n  ".to_owned();
        body.append(t.as_str());
        line.push(segment(body, Style::Plain));
        assert(line_view(line@) =~= middle + seq![plain("\n  "@ + t@)]);
        assert(line_view(line@) =~= message_line(*m));
    } else if m.media.is_some() {
        line.push(segment_of(" sent media. ", Style::Plain));
        push_likes_badge(&mut line, m);
        assert(line_view(line@) =~= message_line(*m));
    } else if m.media_url.is_some() {
        line.push(segment_of(" sent media_url media.... ", Style::Plain));
        push_likes_badge(&mut line, m);
        assert(line_view(line@) =~= message_line(*m));
    } else if let Some(owner) = &m.media_owner {
        line.push(segment(join3(" sent media from ", owner.as_str(), ". "), Style::Plain));
        push_likes_badge(&mut line, m);
        assert(line_view(line@) =~= message_line(*m));
    } else if let Some(a) = &m.action {
        line.push(segment(join3(" took action '", a.as_str(), "'"), Style::Plain));
        assert(line_view(line@) =~= message_line(*m));
    } else if m.heart.is_some() {
        line.push(segment_of(" sent ", Style::Plain));
        line.push(segment_of("<3", Style::Love));
        assert(line_view(line@) =~= message_line(*m));
    } else if let Some(v) = &m.video_call_action {
        line.push(segment(join3(" took vidcall action '", v.as_str(), "'"), Style::Plain));
        assert(line_view(line@) =~= message_line(*m));
    } else if m.live_video_invite.is_some() {
        line.push(segment_of(" sent a live video invite", Style::Plain));
        assert(line_view(line@) =~= message_line(*m));
    } else {
        line.push(segment_of(" did ???", Style::Plain));
        assert(line_view(line@) =~= message_line(*m));
    }
    assert(line_view(line@) =~= message_line(*m));
    line
}

/// The line that shows one like: who gave it and when.
pub open spec fn like_line(l: Like) -> Seq<(Seq<char>, Style)> {
    seq![plain("... "@), (l.username@, Style::Name), plain(" on "@), (shown_time(l.date@), Style::Time)]
}

/// The lines that show the likes of a message: their number, then one line
/// per like in order; or that there are none.
pub open spec fn likes_report(m: Message) -> Seq<Seq<(Seq<char>, Style)>> {
    match m.likes {
        Some(l) => seq![
            seq![plain("Has "@), (decimal(l@.len()), Style::Love), plain(" likes:"@)],
        ] + l@.map_values(|x: Like| like_line(x)),
        None => seq![seq![plain("Has no likes."@)]],
    }
}

/// The lines that show the likes of message `m`.
pub fn describe_likes(m: &Message) -> (lines: Vec<Vec<Segment>>)
    ensures
        lines_view(lines@) == likes_report(*m),
{
    let mut lines: Vec<Vec<Segment>> = Vec::new();
    match &m.likes {
        Some(likes) => {
            let mut head: Vec<Segment> = Vec::new();
            head.push(segment_of("Has ", Style::Plain));
            let mut count = String::new();
            push_decimal(&mut count, likes.len() as u64);
            head.push(segment(count, Style::Love));
            head.push(segment_of(" likes:", Style::Plain));
            assert(line_view(head@) =~= likes_report(*m)[0]);
            lines.push(head);
            assert(lines_view(lines@) =~= likes_report(*m).take(1));
            let mut i: usize = 0;
            while i < likes.len()
                invariant
                    m.likes == Some(*likes),
                    i <= likes@.len(),
                    lines_view(lines@) == likes_report(*m).take(i + 1),
                    likes_report(*m).len() == likes@.len() + 1,
                decreases likes@.len() - i,
            {
                let l = &likes[i];
                let mut row: Vec<Segment> = Vec::new();
                row.push(segment_of("... ", Style::Plain));
                row.push(segment_of(l.username.as_str(), Style::Name));
                row.push(segment_of(" on ", Style::Plain));
                row.push(segment(show_time(l.date.as_str()), Style::Time));
                assert(line_view(row@) =~= like_line(*l));
                assert(likes_report(*m)[i + 1] == like_line(likes@[i as int]));
                let ghost prev = lines_view(lines@);
                lines.push(row);
                assert(lines_view(lines@) =~= prev.push(like_line(*l)));
                assert(lines_view(lines@) =~= likes_report(*m).take(i + 2));
                i = i + 1;
            }
            assert(likes_report(*m).take(likes@.len() as int + 1) =~= likes_report(*m));
        },
        None => {
            let mut only: Vec<Segment> = Vec::new();
            only.push(segment_of("Has no likes.", Style::Plain));
            assert(line_view(only@) =~= seq![plain("Has no likes."@)]);
            lines.push(only);
            assert(lines_view(lines@) =~= likes_report(*m));
        },
    }
    lines
}

/// Whether showing the media of `m` fails: it names a media owner but no
/// shared url, and has no uploaded media.
pub open spec fn media_defect(m: Message) -> bool {
    m.media is None && m.media_owner is Some && m.media_share_url is None
}

/// The line that tells the media of a message, if it has any.
pub open spec fn media_report(m: Message) -> Option<Seq<(Seq<char>, Style)>> {
    if m.media is Some {
        Some(seq![plain("Uploaded media: "@ + m.media->0@)])
    } else if m.media_owner is Some {
        Some(
            seq![plain("Shared media from "@ + m.media_owner->0@ + ": "@ + m.media_share_url->0@)],
        )
    } else if m.media_url is Some {
        Some(seq![plain("Shared media_url media: "@ + m.media_url->0@)])
    } else {
        None
    }
}

/// Whether showing the media of `m` fails.
pub fn has_media_defect(m: &Message) -> (r: bool)
    ensures
        r == media_defect(*m),
{
    m.media.is_none() && m.media_owner.is_some() && m.media_share_url.is_none()
}

/// The line that tells the media of message `m`, if it has any.
pub fn describe_media(m: &Message) -> (line: Option<Vec<Segment>>)
    requires
        !media_defect(*m),
    ensures
        line matches Some(l) ==> media_report(*m) == Some(line_view(l@)),
        line is None ==> media_report(*m) is None,
{
    let mut l: Vec<Segment> = Vec::new();
    if let Some(url) = &m.media {
        let mut t = "Uploaded media: ".to_owned();
        t.append(url.as_str());
        l.push(segment(t, Style::Plain));
    } else if let Some(owner) = &m.media_owner {
        let url = m.media_share_url.as_ref().unwrap();
        let mut t = join3("Shared media from ", owner.as_str(), ": ");
        t.append(url.as_str());
        l.push(segment(t, Style::Plain));
    } else if let Some(url) = &m.media_url {
        let mut t = "Shared media_url media: ".to_owned();
        t.append(url.as_str());
        l.push(segment(t, Style::Plain));
    } else {
        return None;
    }
    assert(media_report(*m) == Some(line_view(l@)));
    Some(l)
}

} // verus!
