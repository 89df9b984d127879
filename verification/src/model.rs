//! The archive: threads of messages between participants.
use vstd::prelude::*;

verus! {

/// A like given to a message.
pub struct Like {
    /// Who liked the message.
    pub username: String,
    /// When, as a timestamp text.
    pub date: String,
}

/// One message of a thread. Besides its sender and timestamp, a message
/// carries at most a few of the optional parts, which tell its kind.
pub struct Message {
    pub sender: String,
    pub created_at: String,
    pub text: Option<String>,
    pub media: Option<String>,
    pub media_url: Option<String>,
    pub media_share_url: Option<String>,
    pub media_owner: Option<String>,
    pub action: Option<String>,
    pub video_call_action: Option<String>,
    pub live_video_invite: Option<String>,
    pub heart: Option<String>,
    pub likes: Option<Vec<Like>>,
}

/// A conversation: its participants, and its messages with the newest first.
pub struct Thread {
    pub participants: Vec<String>,
    pub conversation: Vec<Message>,
}

/// The views of a sequence of strings.
pub open spec fn texts(v: Seq<String>) -> Seq<Seq<char>> {
    v.map_values(|s: String| s@)
}

} // verus!
