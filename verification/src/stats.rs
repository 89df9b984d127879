//! Statistics over one thread: the leaderboard of senders, and the count of
//! messages per day, month or year.
use crate::model::{texts, Message, Thread};
use crate::text::{
    before_first, chars_of, lemma_lex_irreflexive, lemma_lex_total, lemma_lex_transitive, lex_less,
    lex_less_chars, nth_piece, nth_piece_of, same_text, string_of,
};
use vstd::prelude::*;

verus! {

/// The number of messages of `conv` sent by `user`.
pub open spec fn sent_count(conv: Seq<Message>, user: Seq<char>) -> nat
    decreases conv.len(),
{
    if conv.len() == 0 {
        0
    } else {
        sent_count(conv.drop_last(), user) + (if conv.last().sender@ == user {
            1nat
        } else {
            0nat
        })
    }
}

/// The participants `ps[..k]` that sent at least one message, each once, in
/// the order of their first appearance, with their message counts.
pub open spec fn active_senders(ps: Seq<Seq<char>>, conv: Seq<Message>, k: int) -> Seq<
    (Seq<char>, nat),
>
    decreases k,
{
    if k <= 0 || k > ps.len() {
        seq![]
    } else {
        let p = ps[k - 1];
        active_senders(ps, conv, k - 1) + (if sent_count(conv, p) > 0 && !ps.take(k - 1).contains(
            p,
        ) {
            seq![(p, sent_count(conv, p))]
        } else {
            seq![]
        })
    }
}

/// The sum, over the participant list `ps[..k]` (a name listed twice counts
/// twice), of the messages each sent.
pub open spec fn listed_total(ps: Seq<Seq<char>>, conv: Seq<Message>, k: int) -> nat
    decreases k,
{
    if k <= 0 || k > ps.len() {
        0
    } else {
        listed_total(ps, conv, k - 1) + sent_count(conv, ps[k - 1])
    }
}

/// The abstract content of a list of (name, count) entries.
pub open spec fn entries_view(v: Seq<(String, usize)>) -> Seq<(Seq<char>, nat)> {
    v.map_values(|e: (String, usize)| (e.0@, e.1 as nat))
}

/// `r` ranks the entries `d`: it holds each of them once, the counts go
/// down, and entries with equal counts keep their order in `d`.
pub open spec fn ranks(r: Seq<(Seq<char>, nat)>, d: Seq<(Seq<char>, nat)>) -> bool {
    &&& r.len() == d.len()
    &&& r.no_duplicates()
    &&& r.to_set() == d.to_set()
    &&& forall|i: int, j: int| 0 <= i < j < r.len() ==> r[i].1 >= r[j].1
    &&& forall|i: int, j: int, a: int, b: int|
        0 <= i < j < r.len() && 0 <= a < d.len() && 0 <= b < d.len() && r[i] == d[a] && r[j]
            == d[b] && r[i].1 == r[j].1 ==> a < b
}

/// The names of a list of entries.
pub open spec fn entry_names(d: Seq<(Seq<char>, nat)>) -> Seq<Seq<char>> {
    d.map_values(|e: (Seq<char>, nat)| e.0)
}

/// The number of messages of `conv` sent by `user`.
pub fn count_sent(conv: &Vec<Message>, user: &str) -> (n: usize)
    ensures
        n == sent_count(conv@, user@),
{
    let mut n: usize = 0;
    let mut i: usize = 0;
    while i < conv.len()
        invariant
            i <= conv@.len(),
            n <= i,
            n == sent_count(conv@.take(i as int), user@),
        decreases conv@.len() - i,
    {
        assert(conv@.take(i + 1).drop_last() =~= conv@.take(i as int));
        if same_text(conv[i].sender.as_str(), user) {
            n = n + 1;
        }
        i = i + 1;
    }
    assert(conv@.take(conv@.len() as int) =~= conv@);
    n
}

/// The names of `active_senders` are distinct and come from the list.
proof fn lemma_active_senders(ps: Seq<Seq<char>>, conv: Seq<Message>, k: int)
    requires
        0 <= k <= ps.len(),
    ensures
        entry_names(active_senders(ps, conv, k)).no_duplicates(),
        forall|i: int|
            0 <= i < active_senders(ps, conv, k).len() ==> ps.take(k).contains(
                #[trigger] active_senders(ps, conv, k)[i].0,
            ),
        forall|i: int|
            0 <= i < active_senders(ps, conv, k).len() ==> #[trigger] active_senders(
                ps,
                conv,
                k,
            )[i].1 == sent_count(conv, active_senders(ps, conv, k)[i].0),
    decreases k,
{
    if k > 0 {
        lemma_active_senders(ps, conv, k - 1);
        let prev = active_senders(ps, conv, k - 1);
        assert forall|i: int| 0 <= i < prev.len() implies ps.take(k).contains(#[trigger] prev[i].0) by {
            let j = choose|j: int| 0 <= j < k - 1 && #[trigger] ps.take(k - 1)[j] == prev[i].0;
            assert(ps.take(k)[j] == prev[i].0);
        }
        let cur = active_senders(ps, conv, k);
        assert(ps.take(k)[k - 1] == ps[k - 1]);
        assert forall|i: int, j: int|
            0 <= i < j < cur.len() implies entry_names(cur)[i] != entry_names(cur)[j] by {
            if j == prev.len() {
                assert(ps.take(k - 1).contains(prev[i].0));
            } else {
                assert(entry_names(prev)[i] != entry_names(prev)[j]);
            }
        }
    }
}

/// The participants of `t` that sent messages, each once in the order of
/// their first appearance, with their counts.
fn active_senders_of(t: &Thread) -> (d: Vec<(String, usize)>)
    ensures
        entries_view(d@) == active_senders(
            texts(t.participants@),
            t.conversation@,
            t.participants@.len() as int,
        ),
{
    let ghost ps = texts(t.participants@);
    let mut d: Vec<(String, usize)> = Vec::new();
    let mut k: usize = 0;
    while k < t.participants.len()
        invariant
            ps == texts(t.participants@),
            k <= t.participants@.len(),
            entries_view(d@) == active_senders(ps, t.conversation@, k as int),
        decreases t.participants@.len() - k,
    {
        let p = t.participants[k].as_str();
        let n = count_sent(&t.conversation, p);
        let mut seen = false;
        let mut j: usize = 0;
        while j < k
            invariant
                j <= k < t.participants@.len(),
                ps == texts(t.participants@),
                p@ == ps[k as int],
                seen == ps.take(k as int).take(j as int).contains(p@),
            decreases k - j,
        {
            assert(ps.take(k as int).take(j + 1) =~= ps.take(k as int).take(j as int).push(
                ps[j as int],
            ));
            let ghost before = ps.take(k as int).take(j as int);
            let ghost after = ps.take(k as int).take(j + 1);
            assert(ps[j as int] == t.participants@[j as int]@);
            if same_text(t.participants[j].as_str(), p) {
                seen = true;
                assert(after[j as int] == p@);
            } else {
                proof {
                    if before.contains(p@) {
                        let w = choose|w: int| 0 <= w < before.len() && #[trigger] before[w] == p@;
                        assert(after[w] == p@);
                    } else {
                        assert forall|w: int| 0 <= w < after.len() implies #[trigger] after[w]
                            != p@ by {
                            if w < j {
                                assert(after[w] == before[w]);
                            }
                        }
                    }
                }
            }
            j = j + 1;
        }
        assert(ps.take(k as int).take(k as int) =~= ps.take(k as int));
        if n > 0 && !seen {
            d.push((p.to_owned(), n));
        }
        assert(entries_view(d@) =~= active_senders(ps, t.conversation@, k + 1));
        k = k + 1;
    }
    d
}

/// Entries with distinct names are distinct.
proof fn lemma_distinct_entries(d: Seq<(Seq<char>, nat)>)
    requires
        entry_names(d).no_duplicates(),
    ensures
        d.no_duplicates(),
{
    assert forall|a: int, b: int| 0 <= a < d.len() && 0 <= b < d.len() && a != b implies d[a]
        != d[b] by {
        assert(entry_names(d)[a] != entry_names(d)[b]);
    }
}

/// Orders entries by count, highest first; entries with equal counts keep
/// their order.
pub fn rank_entries(d: &Vec<(String, usize)>) -> (r: Vec<(String, usize)>)
    requires
        entry_names(entries_view(d@)).no_duplicates(),
    ensures
        ranks(entries_view(r@), entries_view(d@)),
{
    let ghost dv = entries_view(d@);
    proof {
        lemma_distinct_entries(dv);
    }
    let mut r: Vec<(String, usize)> = Vec::new();
    let ghost mut idx: Seq<int> = seq![];
    let mut k: usize = 0;
    while k < d.len()
        invariant
            dv == entries_view(d@),
            dv.no_duplicates(),
            k <= d@.len(),
            r@.len() == k,
            idx.len() == k,
            forall|i: int| 0 <= i < k ==> 0 <= #[trigger] idx[i] < k,
            forall|i: int| 0 <= i < k ==> #[trigger] entries_view(r@)[i] == dv[idx[i]],
            forall|i: int, j: int|
                0 <= i < j < k ==> #[trigger] r@[i].1 > #[trigger] r@[j].1 || (r@[i].1 == r@[j].1
                    && idx[i] < idx[j]),
            forall|a: int| 0 <= a < k ==> idx.contains(a),
        decreases d@.len() - k,
    {
        let count = d[k].1;
        let mut p: usize = 0;
        while p < r.len() && r[p].1 >= count
            invariant
                p <= r@.len(),
                forall|i: int| 0 <= i < p ==> #[trigger] r@[i].1 >= count,
            decreases r@.len() - p,
        {
            p = p + 1;
        }
        let ghost old_r = r@;
        let ghost old_idx = idx;
        let entry = (d[k].0.clone(), count);
        r.insert(p, entry);
        proof {
            old_idx.insert_ensures(p as int, k as int);
            idx = idx.insert(p as int, k as int);
            assert(entries_view(r@) =~= entries_view(old_r).insert(p as int, dv[k as int]));
            assert forall|i: int, j: int|
                0 <= i < j < k + 1 implies #[trigger] r@[i].1 > #[trigger] r@[j].1 || (r@[i].1
                == r@[j].1 && idx[i] < idx[j]) by {
                if j < p {
                    assert(r@[i] == old_r[i] && r@[j] == old_r[j]);
                } else if j == p {
                    assert(r@[i] == old_r[i]);
                } else if i == p {
                    assert(r@[j] == old_r[j - 1]);
                    if p < old_r.len() {
                        assert(old_r[p as int].1 < count);
                        if j - 1 > p {
                            assert(old_r[p as int].1 > old_r[j - 1].1 || old_r[p as int].1
                                == old_r[j - 1].1);
                        }
                    }
                } else if i < p {
                    assert(r@[i] == old_r[i] && r@[j] == old_r[j - 1]);
                } else {
                    assert(r@[i] == old_r[i - 1] && r@[j] == old_r[j - 1]);
                }
            }
            assert forall|a: int| 0 <= a < k + 1 implies idx.contains(a) by {
                if a == k {
                    assert(idx[p as int] == a);
                } else {
                    assert(old_idx.contains(a));
                    let w = choose|w: int| 0 <= w < old_idx.len() && old_idx[w] == a;
                    if w < p {
                        assert(idx[w] == a);
                    } else {
                        assert(idx[w + 1] == a);
                    }
                }
            }
        }
        k = k + 1;
    }
    proof {
        let rv = entries_view(r@);
        assert forall|i: int, j: int| 0 <= i < j < rv.len() implies rv[i].1 >= rv[j].1 by {
            assert(r@[i].1 > r@[j].1 || r@[i].1 == r@[j].1);
        }
        assert forall|i: int, j: int| 0 <= i < rv.len() && 0 <= j < rv.len() && i != j implies rv[i]
            != rv[j] by {
            if i < j {
                assert(r@[i].1 > r@[j].1 || idx[i] < idx[j]);
            } else {
                assert(r@[j].1 > r@[i].1 || idx[j] < idx[i]);
            }
        }
        assert forall|x: (Seq<char>, nat)| rv.contains(x) <==> dv.contains(x) by {
            if rv.contains(x) {
                let i = choose|i: int| 0 <= i < rv.len() && rv[i] == x;
                assert(dv[idx[i]] == x);
            }
            if dv.contains(x) {
                let a = choose|a: int| 0 <= a < dv.len() && dv[a] == x;
                assert(idx.contains(a));
                let i = choose|i: int| 0 <= i < idx.len() && idx[i] == a;
                assert(rv[i] == x);
            }
        }
        assert(rv.to_set() =~= dv.to_set());
        assert forall|i: int, j: int, a: int, b: int|
            0 <= i < j < rv.len() && 0 <= a < dv.len() && 0 <= b < dv.len() && rv[i] == dv[a]
                && rv[j] == dv[b] && rv[i].1 == rv[j].1 implies a < b by {
            assert(dv[idx[i]] == dv[a]);
            assert(dv[idx[j]] == dv[b]);
            assert(r@[i].1 > r@[j].1 || (r@[i].1 == r@[j].1 && idx[i] < idx[j]));
        }
    }
    r
}

/// The leaderboard of a thread: who sent messages, with how many, the most
/// first; and the sum of the counts over the participant list.
pub struct Leaderboard {
    pub entries: Vec<(String, usize)>,
    pub total: u128,
}

/// The leaderboard of thread `t`.
pub fn leaderboard(t: &Thread) -> (l: Leaderboard)
    ensures
        ranks(
            entries_view(l.entries@),
            active_senders(texts(t.participants@), t.conversation@, t.participants@.len() as int),
        ),
        l.total == listed_total(
            texts(t.participants@),
            t.conversation@,
            t.participants@.len() as int,
        ),
{
    let d = active_senders_of(t);
    proof {
        lemma_active_senders(
            texts(t.participants@),
            t.conversation@,
            t.participants@.len() as int,
        );
        assert(entry_names(entries_view(d@)) =~= entry_names(
            active_senders(texts(t.participants@), t.conversation@, t.participants@.len() as int),
        ));
    }
    let entries = rank_entries(&d);
    let ghost ps = texts(t.participants@);
    let mut total: u128 = 0;
    let mut k: usize = 0;
    let conv_len: usize = t.conversation.len();
    while k < t.participants.len()
        invariant
            ps == texts(t.participants@),
            conv_len == t.conversation@.len(),
            k <= t.participants@.len(),
            total == listed_total(ps, t.conversation@, k as int),
            total <= k * t.conversation@.len(),
        decreases t.participants@.len() - k,
    {
        let n = count_sent(&t.conversation, t.participants[k].as_str());
        proof {
            lemma_sent_count_bound(t.conversation@, ps[k as int]);
            assert(total + n <= (k + 1) * t.conversation@.len()) by (nonlinear_arith)
                requires
                    total <= k * t.conversation@.len(),
                    n <= t.conversation@.len(),
            ;
            assert((k + 1) * t.conversation@.len() <= usize::MAX * usize::MAX) by (nonlinear_arith)
                requires
                    k + 1 <= usize::MAX,
                    t.conversation@.len() <= usize::MAX,
            ;
        }
        total = total + n as u128;
        k = k + 1;
    }
    Leaderboard { entries, total }
}

/// No user sent more messages than there are.
proof fn lemma_sent_count_bound(conv: Seq<Message>, user: Seq<char>)
    ensures
        sent_count(conv, user) <= conv.len(),
    decreases conv.len(),
{
    if conv.len() > 0 {
        lemma_sent_count_bound(conv.drop_last(), user);
    }
}

/// The length of the periods over which messages are counted.
#[derive(Clone, Copy, PartialEq, Eq, Debug, Structural)]
pub enum Interval {
    Day,
    Month,
    Year,
}

/// The period of a timestamp: the date before its `T`, split at `-`, and
/// its first three pieces (day), two (month) or one (year) joined again with
/// `-`; none where the date has fewer pieces.
pub open spec fn period_key(created_at: Seq<char>, iv: Interval) -> Option<Seq<char>> {
    let date = before_first(created_at, "T"@);
    let p0 = nth_piece(date, "-"@, 0);
    let p1 = nth_piece(date, "-"@, 1);
    let p2 = nth_piece(date, "-"@, 2);
    match iv {
        Interval::Year => p0,
        Interval::Month => if p0 is Some && p1 is Some {
            Some(p0->0 + "-"@ + p1->0)
        } else {
            None
        },
        Interval::Day => if p0 is Some && p1 is Some && p2 is Some {
            Some(p0->0 + "-"@ + p1->0 + "-"@ + p2->0)
        } else {
            None
        },
    }
}

/// The number of messages among `conv[..n]` whose period is `key`.
pub open spec fn period_count(conv: Seq<Message>, iv: Interval, key: Seq<char>, n: int) -> nat
    decreases n,
{
    if n <= 0 || n > conv.len() {
        0
    } else {
        period_count(conv, iv, key, n - 1) + (if period_key(conv[n - 1].created_at@, iv) == Some(
            key,
        ) {
            1nat
        } else {
            0nat
        })
    }
}

/// Every message among `conv[..n]` has a period.
pub open spec fn all_keyed(conv: Seq<Message>, iv: Interval, n: int) -> bool {
    forall|m: int| 0 <= m < n ==> #[trigger] period_key(conv[m].created_at@, iv) is Some
}

/// `r` tallies the periods of `conv`: one entry per period that occurs, in
/// increasing order, each with the number of its messages.
pub open spec fn tallies(r: Seq<(Seq<char>, nat)>, conv: Seq<Message>, iv: Interval) -> bool {
    &&& forall|i: int, j: int| 0 <= i < j < r.len() ==> lex_less(r[i].0, r[j].0)
    &&& forall|i: int|
        0 <= i < r.len() ==> #[trigger] r[i].1 == period_count(conv, iv, r[i].0, conv.len() as int)
    &&& forall|i: int| 0 <= i < r.len() ==> #[trigger] period_occurs(conv, iv, r[i].0)
    &&& forall|m: int|
        0 <= m < conv.len() ==> entry_names(r).contains(
            #[trigger] period_key(conv[m].created_at@, iv)->0,
        )
}

/// Some message of `conv` falls in the period `key`.
pub open spec fn period_occurs(conv: Seq<Message>, iv: Interval, key: Seq<char>) -> bool {
    exists|m: int| 0 <= m < conv.len() && #[trigger] period_key(conv[m].created_at@, iv) == Some(key)
}

/// The period of the timestamp `created_at`.
pub fn period_key_of(created_at: &str, iv: Interval) -> (r: Option<Vec<char>>)
    ensures
        r matches Some(k) ==> period_key(created_at@, iv) == Some(k@),
        r is None ==> period_key(created_at@, iv) is None,
{
    let cs = chars_of(created_at);
    let t = chars_of("T");
    let date = match nth_piece_of(&cs, &t, 0) {
        Some(d) => d,
        None => {
            return None;
        },
    };
    assert(date@ == before_first(created_at@, "T"@));
    let dash = chars_of("-");
    let p0 = nth_piece_of(&date, &dash, 0);
    let p1 = nth_piece_of(&date, &dash, 1);
    let p2 = nth_piece_of(&date, &dash, 2);
    match iv {
        Interval::Year => p0,
        Interval::Month => match (p0, p1) {
            (Some(a), Some(b)) => {
                let mut k = a;
                k.push('-');
                let mut b = b;
                k.append(&mut b);
                proof {
                    reveal_strlit("-");
                }
                assert(k@ =~= period_key(created_at@, iv)->0);
                Some(k)
            },
            _ => None,
        },
        Interval::Day => match (p0, p1, p2) {
            (Some(a), Some(b), Some(c)) => {
                let mut k = a;
                k.push('-');
                let mut b = b;
                k.append(&mut b);
                k.push('-');
                let mut c = c;
                k.append(&mut c);
                proof {
                    reveal_strlit("-");
                }
                assert(k@ =~= period_key(created_at@, iv)->0);
                Some(k)
            },
            _ => None,
        },
    }
}

/// The abstract content of a tally under way.
pub open spec fn tally_view(v: Seq<(Vec<char>, usize)>) -> Seq<(Seq<char>, nat)> {
    v.map_values(|e: (Vec<char>, usize)| (e.0@, e.1 as nat))
}

/// The messages of thread `t` counted per period of length `iv`, in order of
/// the periods, each with the number of its messages. None where some message's date has too few pieces for `iv`.
pub fn messages_over_time(t: &Thread, iv: Interval) -> (r: Option<Vec<(String, usize)>>)
    ensures
        r is None <==> !all_keyed(t.conversation@, iv, t.conversation@.len() as int),
        r matches Some(v) ==> tallies(entries_view(v@), t.conversation@, iv),
{
    let ghost conv = t.conversation@;
    let mut tally: Vec<(Vec<char>, usize)> = Vec::new();
    let mut i: usize = 0;
    while i < t.conversation.len()
        invariant
            conv == t.conversation@,
            i <= conv.len(),
            all_keyed(conv, iv, i as int),
            forall|a: int, b: int|
                0 <= a < b < tally@.len() ==> lex_less(tally@[a].0@, tally@[b].0@),
            forall|a: int|
                0 <= a < tally@.len() ==> #[trigger] tally@[a].1 == period_count(
                    conv,
                    iv,
                    tally@[a].0@,
                    i as int,
                ) && tally@[a].1 <= i,
            forall|a: int|
                0 <= a < tally@.len() ==> period_occurs(conv, iv, #[trigger] tally@[a].0@),
            forall|m: int|
                0 <= m < i ==> entry_names(tally_view(tally@)).contains(
                    #[trigger] period_key(conv[m].created_at@, iv)->0,
                ),
        decreases conv.len() - i,
    {
        let key = match period_key_of(t.conversation[i].created_at.as_str(), iv) {
            Some(k) => k,
            None => {
                return None;
            },
        };
        let mut p: usize = 0;
        while p < tally.len() && lex_less_chars(&tally[p].0, &key)
            invariant
                p <= tally@.len(),
                forall|a: int| 0 <= a < p ==> lex_less(#[trigger] tally@[a].0@, key@),
            decreases tally@.len() - p,
        {
            p = p + 1;
        }
        let ghost old_tally = tally@;
        let ghost kv = key@;
        let found = p < tally.len() && same_chars(&tally[p].0, &key);
        if found {
            let e = tally.remove(p);
            let c = e.1 + 1;
            tally.insert(p, (e.0, c));
            assert(tally@ =~= old_tally.update(p as int, (old_tally[p as int].0, c)));
        } else {
            tally.insert(p, (key, 1));
        }
        proof {
            lemma_tally_step(conv, iv, i as int, kv, old_tally, tally@, p as int, found);
        }
        i = i + 1;
    }
    assert(all_keyed(conv, iv, conv.len() as int));
    let mut out: Vec<(String, usize)> = Vec::new();
    let mut j: usize = 0;
    while j < tally.len()
        invariant
            j <= tally@.len(),
            entries_view(out@) == tally_view(tally@).take(j as int),
        decreases tally@.len() - j,
    {
        let name = string_of(tally[j].0.as_slice());
        assert(name@ == tally@[j as int].0@);
        let ghost prev = entries_view(out@);
        out.push((name, tally[j].1));
        assert(entries_view(out@) =~= prev.push(tally_view(tally@)[j as int]));
        assert(entries_view(out@) =~= tally_view(tally@).take(j + 1));
        j = j + 1;
    }
    assert(tally_view(tally@).take(tally@.len() as int) =~= tally_view(tally@));
    Some(out)
}

/// Whether two character vectors are equal.
fn same_chars(a: &Vec<char>, b: &Vec<char>) -> (r: bool)
    ensures
        r == (a@ == b@),
{
    if a.len() != b.len() {
        return false;
    }
    let mut i: usize = 0;
    while i < a.len()
        invariant
            a@.len() == b@.len(),
            i <= a@.len(),
            forall|j: int| 0 <= j < i ==> a@[j] == b@[j],
        decreases a@.len() - i,
    {
        if a[i] != b[i] {
            return false;
        }
        i = i + 1;
    }
    assert(a@ =~= b@);
    true
}

/// No message before `n` falls in period `key`: its count is zero.
proof fn lemma_period_count_zero(conv: Seq<Message>, iv: Interval, key: Seq<char>, n: int)
    requires
        0 <= n <= conv.len(),
        forall|m: int| 0 <= m < n ==> period_key(conv[m].created_at@, iv) != Some(key),
    ensures
        period_count(conv, iv, key, n) == 0,
    decreases n,
{
    if n > 0 {
        lemma_period_count_zero(conv, iv, key, n - 1);
    }
}

/// One message more keeps the tally right.
proof fn lemma_tally_step(
    conv: Seq<Message>,
    iv: Interval,
    i: int,
    key: Seq<char>,
    old: Seq<(Vec<char>, usize)>,
    new: Seq<(Vec<char>, usize)>,
    p: int,
    found: bool,
)
    requires
        0 <= i < conv.len() <= usize::MAX,
        period_key(conv[i].created_at@, iv) == Some(key),
        forall|a: int, b: int| 0 <= a < b < old.len() ==> lex_less(old[a].0@, old[b].0@),
        forall|a: int|
            0 <= a < old.len() ==> #[trigger] old[a].1 == period_count(conv, iv, old[a].0@, i)
                && old[a].1 <= i,
        forall|a: int| 0 <= a < old.len() ==> period_occurs(conv, iv, #[trigger] old[a].0@),
        forall|m: int|
            0 <= m < i ==> entry_names(tally_view(old)).contains(
                #[trigger] period_key(conv[m].created_at@, iv)->0,
            ),
        0 <= p <= old.len(),
        forall|a: int| 0 <= a < p ==> lex_less(#[trigger] old[a].0@, key),
        p < old.len() ==> !lex_less(old[p].0@, key),
        found == (p < old.len() && old[p].0@ == key),
        found ==> new == old.update(p, (old[p].0, (old[p].1 + 1) as usize)),
        !found ==> exists|kv: Vec<char>| kv@ == key && new == old.insert(p, (kv, 1usize)),
    ensures
        forall|a: int, b: int| 0 <= a < b < new.len() ==> lex_less(new[a].0@, new[b].0@),
        forall|a: int|
            0 <= a < new.len() ==> #[trigger] new[a].1 == period_count(conv, iv, new[a].0@, i + 1)
                && new[a].1 <= i + 1,
        forall|a: int| 0 <= a < new.len() ==> period_occurs(conv, iv, #[trigger] new[a].0@),
        forall|m: int|
            0 <= m < i + 1 ==> entry_names(tally_view(new)).contains(
                #[trigger] period_key(conv[m].created_at@, iv)->0,
            ),
{
    assert(period_occurs(conv, iv, key)) by {
        assert(period_key(conv[i].created_at@, iv) == Some(key));
    }
    // Every key at or after p comes after `key`, unless it is `key` itself.
    assert forall|a: int| p <= a < old.len() && old[a].0@ != key implies lex_less(key, old[a].0@) by {
        lemma_lex_total(old[p].0@, key);
        if a > p {
            lemma_lex_total(old[a].0@, key);
            lemma_lex_transitive(key, old[p].0@, old[a].0@);
            if old[p].0@ == key {
                assert(lex_less(old[p].0@, old[a].0@));
            }
        }
    }
    // Keys other than `key` keep their counts.
    assert forall|a: int| 0 <= a < old.len() && old[a].0@ != key implies period_count(
        conv,
        iv,
        old[a].0@,
        i + 1,
    ) == period_count(conv, iv, old[a].0@, i) by {}
    assert(period_count(conv, iv, key, i + 1) == period_count(conv, iv, key, i) + 1);
    if found {
        assert forall|a: int| 0 <= a < old.len() && a != p implies old[a].0@ != key by {
            if a < p {
                lemma_lex_irreflexive(key);
            } else {
                lemma_lex_irreflexive(old[p].0@);
                assert(lex_less(old[p].0@, old[a].0@));
            }
        }
        assert(tally_view(new) =~= tally_view(old).update(p, (key, (old[p].1 + 1) as nat)));
        assert forall|a: int| 0 <= a < new.len() implies #[trigger] new[a].1 == period_count(
            conv,
            iv,
            new[a].0@,
            i + 1,
        ) && new[a].1 <= i + 1 by {
            if a != p {
                assert(new[a] == old[a]);
            }
        }
        assert forall|m: int| 0 <= m < i + 1 implies entry_names(tally_view(new)).contains(
            #[trigger] period_key(conv[m].created_at@, iv)->0,
        ) by {
            if m == i {
                assert(entry_names(tally_view(new))[p] == key);
            } else {
                let names = entry_names(tally_view(old));
                let k = period_key(conv[m].created_at@, iv)->0;
                assert(names.contains(k));
                let w = choose|w: int| 0 <= w < names.len() && names[w] == k;
                assert(entry_names(tally_view(new))[w] == k);
            }
        }
    } else {
        let kv = choose|kv: Vec<char>| kv@ == key && new == old.insert(p, (kv, 1usize));
        assert forall|a: int| 0 <= a < old.len() implies old[a].0@ != key by {
            if a < p {
                lemma_lex_irreflexive(key);
            } else {
                lemma_lex_irreflexive(key);
            }
        }
        assert forall|m: int| 0 <= m < i implies period_key(conv[m].created_at@, iv) != Some(
            key,
        ) by {
            let names = entry_names(tally_view(old));
            let k = period_key(conv[m].created_at@, iv)->0;
            assert(names.contains(k));
            let w = choose|w: int| 0 <= w < names.len() && names[w] == k;
            assert(old[w].0@ == k);
        }
        lemma_period_count_zero(conv, iv, key, i);
        old.insert_ensures(p, (kv, 1usize));
        assert forall|a: int| 0 <= a < new.len() implies #[trigger] new[a].1 == period_count(
            conv,
            iv,
            new[a].0@,
            i + 1,
        ) && new[a].1 <= i + 1 by {
            if a < p {
                assert(new[a] == old[a]);
            } else if a > p {
                assert(new[a] == old[a - 1]);
            }
        }
        assert forall|a: int, b: int| 0 <= a < b < new.len() implies lex_less(
            new[a].0@,
            new[b].0@,
        ) by {
            if b < p {
            } else if b == p {
            } else if a == p {
            } else if a < p {
                lemma_lex_transitive(new[a].0@, key, new[b].0@);
            } else {
            }
        }
        assert forall|m: int| 0 <= m < i + 1 implies entry_names(tally_view(new)).contains(
            #[trigger] period_key(conv[m].created_at@, iv)->0,
        ) by {
            if m == i {
                assert(entry_names(tally_view(new))[p] == key);
            } else {
                let names = entry_names(tally_view(old));
                let k = period_key(conv[m].created_at@, iv)->0;
                assert(names.contains(k));
                let w = choose|w: int| 0 <= w < names.len() && names[w] == k;
                if w < p {
                    assert(entry_names(tally_view(new))[w] == k);
                } else {
                    assert(entry_names(tally_view(new))[w + 1] == k);
                }
            }
        }
    }
}

} // verus!
