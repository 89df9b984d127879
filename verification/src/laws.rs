//! Properties of the library as a whole: what one step undoes, what the
//! search results mean, and how the text utilities fit together.
use crate::browse::{browse_step, ready, shown, text_hits, text_match, user_hits, BrowseReplyOf, Browser};
use crate::console::{console_step, Console, ConsoleReplyOf, ConsoleReplyView};
use crate::listing::{first_index, others, overview_defined, overview_line};
use crate::model::{texts, Message, Thread};
use crate::render::{message_line, plain, Style};
use crate::stats::{
    listed_total, active_senders, all_keyed, entry_names, period_count, period_key, ranks, sent_count, tallies,
    Interval,
};
use crate::text::{
    lemma_lex_irreflexive, lex_less, decimal, digit_char, digits_value, ends_with, is_digit, is_white, parsed_usize, scan_words,
    shown_time, unsigned_body, words,
};
use vstd::prelude::*;
use vstd::utf8::encode_utf8;

verus! {

/// A line whose first word is `w`, taking at least two bytes.
pub open spec fn command_line(line: Seq<char>, w: Seq<char>) -> bool {
    encode_utf8(line).len() >= 2 && words(line).len() > 0 && words(line)[0] == w
}

/// Toggling auto-forward twice in message mode restores the settings and
/// the position.
pub proof fn law_auto_forward_toggle_undoes(b: Browser, t: Thread, line: Seq<char>)
    requires
        command_line(line, "af"@),
    ensures
        browse_step(browse_step(b, t, line).0, t, line).0 == b,
{
    reveal_strlit("af");
    reveal_strlit(".");
    reveal_strlit("=");
    reveal_strlit("+");
    reveal_strlit(",");
    reveal_strlit("-");
    reveal_strlit("_");
    reveal_strlit("s");
    reveal_strlit("e");
}

/// Toggling the auto-forward direction twice restores the settings and the
/// position.
pub proof fn law_direction_toggle_undoes(b: Browser, t: Thread, line: Seq<char>)
    requires
        command_line(line, "raf"@),
    ensures
        browse_step(browse_step(b, t, line).0, t, line).0 == b,
{
    reveal_strlit("raf");
    reveal_strlit("af");
    reveal_strlit(".");
    reveal_strlit("=");
    reveal_strlit("+");
    reveal_strlit(",");
    reveal_strlit("-");
    reveal_strlit("_");
    reveal_strlit("s");
    reveal_strlit("e");
}

/// Whatever line is read, a browser that points at a message of the thread
/// still points at one after the step.
pub proof fn law_step_keeps_ready(b: Browser, t: Thread, line: Seq<char>)
    requires
        ready(b, t),
        t.conversation@.len() <= usize::MAX,
    ensures
        ready(browse_step(b, t, line).0, t),
{
}

/// The browser after the lines `lines`, read in turn from `b`.
pub open spec fn run_browse(b: Browser, t: Thread, lines: Seq<Seq<char>>) -> Browser
    decreases lines.len(),
{
    if lines.len() == 0 {
        b
    } else {
        browse_step(run_browse(b, t, lines.drop_last()), t, lines.last()).0
    }
}

/// Message mode starts at message id 0 and, whatever lines are read, every
/// prompt shows an id below the number of messages, the message shown before
/// it being `conversation[len - 1 - id]`, a message of the thread.
pub proof fn law_browsing_stays_in_thread(t: Thread, lines: Seq<Seq<char>>)
    requires
        1 <= t.conversation@.len() <= usize::MAX,
    ensures
        ({
            let start = Browser { current: 0, auto_forward: true, forwards: true };
            let b = run_browse(start, t, lines);
            &&& ready(b, t)
            &&& 0 <= shown(b, t) < t.conversation@.len()
            &&& shown(start, t) == t.conversation@.len() - 1
        }),
    decreases lines.len(),
{
    let start = Browser { current: 0, auto_forward: true, forwards: true };
    if lines.len() > 0 {
        law_browsing_stays_in_thread(t, lines.drop_last());
        law_step_keeps_ready(run_browse(start, t, lines.drop_last()), t, lines.last());
    }
}

/// Moving to the next message and then back to the previous one returns to
/// the message where one started.
pub proof fn law_next_then_previous(b: Browser, t: Thread, next: Seq<char>, prev: Seq<char>)
    requires
        command_line(next, "."@),
        command_line(prev, ","@),
        b.current + 1 < t.conversation@.len(),
        t.conversation@.len() <= usize::MAX,
    ensures
        browse_step(browse_step(b, t, next).0, t, prev).0 == b,
{
    reveal_strlit(".");
    reveal_strlit("=");
    reveal_strlit("+");
    reveal_strlit(",");
}

/// Jumping to message id `n` in range selects it; the message shown is then
/// `conversation[len - 1 - n]`.
pub proof fn law_jump_selects(b: Browser, t: Thread, line: Seq<char>, n: nat)
    requires
        encode_utf8(line).len() >= 2,
        words(line).len() > 0,
        parsed_usize(words(line)[0]) == Some(n),
        0 < n < t.conversation@.len(),
    ensures
        browse_step(b, t, line).0.current == n,
        browse_step(b, t, line).2,
{
    let w = words(line)[0];
    let body = unsigned_body(w);
    assert(is_digit(body[0]));
    reveal_strlit(".");
    reveal_strlit("=");
    reveal_strlit("+");
    reveal_strlit(",");
    reveal_strlit("-");
    reveal_strlit("_");
    reveal_strlit("s");
    reveal_strlit("e");
    reveal_strlit("af");
    reveal_strlit("raf");
    reveal_strlit("m");
    reveal_strlit("l");
    reveal_strlit("f");
    reveal_strlit("fu");
    reveal_strlit("h");
    reveal_strlit("q");
    if w.len() == 1 {
        assert(w == body);
    } else {
        assert(w[0] == '+' || w[0] == body[0]);
    }
}

/// Selecting thread `n` with `t n` makes it the current thread, for any `n`
/// up to the number of threads.
pub proof fn law_select_thread(c: Console, archive: Seq<Thread>, line: Seq<char>, n: nat)
    requires
        command_line(line, "t"@),
        words(line).len() > 1,
        parsed_usize(words(line)[1]) == Some(n),
        n <= archive.len(),
        archive.len() <= usize::MAX,
    ensures
        console_step(c, archive, line).0.current == n,
        console_step(c, archive, line).1 == ConsoleReplyOf::<Seq<char>, Seq<(usize, Seq<usize>)>>::Nothing,
{
    reveal_strlit("t");
    reveal_strlit("lat");
    reveal_strlit("p");
    reveal_strlit("ct");
    reveal_strlit("ti");
    reveal_strlit("ams");
    reveal_strlit("ams-mot");
    reveal_strlit("ams-dt");
    reveal_strlit("n");
    let w = words(line)[0];
    assert(w == "t"@ && w.len() == 1 && w[0] == 't');
    assert(w != "lat"@ && w != "p"@ && w != "ct"@ && w != "ti"@);
    assert(w != "ams"@ && w != "ams-mot"@ && w != "ams-dt"@ && w != "n"@);
    assert(encode_utf8(line).len() != 1);
}

/// The hits of a text search are exactly the messages whose text holds the
/// needle, from the newest down, each once.
pub proof fn law_text_hits(conv: Seq<Message>, needle: Seq<char>, from: int)
    requires
        0 <= from <= conv.len(),
        conv.len() <= usize::MAX,
    ensures
        forall|i: int|
            #![trigger text_hits(conv, needle, from).contains(i as usize)]
            0 <= i < conv.len() ==> (text_hits(conv, needle, from).contains(i as usize) <==> (
            from <= i && text_match(conv[i], needle))),
        forall|a: int, b: int|
            0 <= a < b < text_hits(conv, needle, from).len() ==> #[trigger] text_hits(
                conv,
                needle,
                from,
            )[a] > #[trigger] text_hits(conv, needle, from)[b],
        forall|a: int|
            0 <= a < text_hits(conv, needle, from).len() ==> from <= #[trigger] text_hits(
                conv,
                needle,
                from,
            )[a] < conv.len(),
    decreases conv.len() - from,
{
    if from < conv.len() {
        law_text_hits(conv, needle, from + 1);
        let rest = text_hits(conv, needle, from + 1);
        let all = text_hits(conv, needle, from);
        assert forall|a: int| 0 <= a < all.len() implies from <= #[trigger] all[a] < conv.len() by {
            if a < rest.len() {
                assert(all[a] == rest[a]);
            }
        }
        assert forall|a: int, b: int| 0 <= a < b < all.len() implies #[trigger] all[a]
            > #[trigger] all[b] by {
            assert(all[a] == rest[a]);
            if b < rest.len() {
                assert(all[b] == rest[b]);
            } else {
                assert(rest[a] >= from + 1);
            }
        }
        assert forall|i: int|
            #![trigger all.contains(i as usize)]
            0 <= i < conv.len() implies (all.contains(i as usize) <==> (from <= i && text_match(
                conv[i],
                needle,
            ))) by {
            if all.contains(i as usize) {
                let k = choose|k: int| 0 <= k < all.len() && all[k] == i as usize;
                if k < rest.len() {
                    assert(rest[k] == all[k]);
                    assert(rest.contains(i as usize));
                }
            }
            if from <= i && text_match(conv[i], needle) {
                if i == from {
                    assert(all[all.len() - 1] == from as usize);
                } else {
                    assert(rest.contains(i as usize));
                    let k = choose|k: int| 0 <= k < rest.len() && rest[k] == i as usize;
                    assert(all[k] == rest[k]);
                }
            }
        }
    }
}

/// The messages found for a user are exactly theirs, from the newest down.
pub proof fn law_user_hits(conv: Seq<Message>, user: Seq<char>, from: int)
    requires
        0 <= from <= conv.len(),
        conv.len() <= usize::MAX,
    ensures
        forall|i: int|
            #![trigger user_hits(conv, user, from).contains(i as usize)]
            0 <= i < conv.len() ==> (user_hits(conv, user, from).contains(i as usize) <==> (from
                <= i && conv[i].sender@ == user)),
        forall|a: int, b: int|
            0 <= a < b < user_hits(conv, user, from).len() ==> #[trigger] user_hits(
                conv,
                user,
                from,
            )[a] > #[trigger] user_hits(conv, user, from)[b],
        forall|a: int|
            0 <= a < user_hits(conv, user, from).len() ==> from <= #[trigger] user_hits(
                conv,
                user,
                from,
            )[a] < conv.len(),
    decreases conv.len() - from,
{
    if from < conv.len() {
        law_user_hits(conv, user, from + 1);
        let rest = user_hits(conv, user, from + 1);
        let all = user_hits(conv, user, from);
        assert forall|a: int| 0 <= a < all.len() implies from <= #[trigger] all[a] < conv.len() by {
            if a < rest.len() {
                assert(all[a] == rest[a]);
            }
        }
        assert forall|a: int, b: int| 0 <= a < b < all.len() implies #[trigger] all[a]
            > #[trigger] all[b] by {
            assert(all[a] == rest[a]);
            if b < rest.len() {
                assert(all[b] == rest[b]);
            } else {
                assert(rest[a] >= from + 1);
            }
        }
        assert forall|i: int|
            #![trigger all.contains(i as usize)]
            0 <= i < conv.len() implies (all.contains(i as usize) <==> (from <= i && conv[i].sender@
                == user)) by {
            if all.contains(i as usize) {
                let k = choose|k: int| 0 <= k < all.len() && all[k] == i as usize;
                if k < rest.len() {
                    assert(rest[k] == all[k]);
                    assert(rest.contains(i as usize));
                }
            }
            if from <= i && conv[i].sender@ == user {
                if i == from {
                    assert(all[all.len() - 1] == from as usize);
                } else {
                    assert(rest.contains(i as usize));
                    let k = choose|k: int| 0 <= k < rest.len() && rest[k] == i as usize;
                    assert(all[k] == rest[k]);
                }
            }
        }
    }
}

/// The decimal digits of a number are digits and write that number.
proof fn lemma_decimal_digits(n: nat)
    ensures
        decimal(n).len() > 0,
        forall|i: int| 0 <= i < decimal(n).len() ==> is_digit(#[trigger] decimal(n)[i]),
        digits_value(decimal(n)) == n,
        decimal(n)[0] != '+',
    decreases n,
{
    if n >= 10 {
        lemma_decimal_digits(n / 10);
        let d = decimal(n);
        assert(d.drop_last() =~= decimal(n / 10));
        assert(digit_char(n % 10) as u32 == n % 10 + 48);
        assert(d.last() == digit_char(n % 10));
        assert((n / 10) * 10 + n % 10 == n);
        assert(digits_value(d) == digits_value(decimal(n / 10)) * 10 + ((d.last() as u32) - 48) as nat);
        assert forall|i: int| 0 <= i < d.len() implies is_digit(#[trigger] d[i]) by {
            if i < d.len() - 1 {
                assert(d[i] == decimal(n / 10)[i]);
            }
        }
        assert(d[0] == decimal(n / 10)[0]);
    } else {
        assert(digit_char(n) as u32 == n + 48);
        let d = decimal(n);
        assert(d.drop_last() =~= Seq::<char>::empty());
        assert(digits_value(d.drop_last()) == 0);
        assert(d.last() == digit_char(n));
    }
}

/// Parsing the decimal text of a number gives the number back.
pub proof fn law_decimal_parses_back(n: nat)
    requires
        n <= usize::MAX,
    ensures
        parsed_usize(decimal(n)) == Some(n),
{
    lemma_decimal_digits(n);
    assert(unsigned_body(decimal(n)) == decimal(n));
}

/// A timestamp ending in `+00:00` is shown without it.
pub proof fn law_shown_time_strips_offset(s: Seq<char>)
    ensures
        shown_time(s + "+00:00"@) == s,
{
    let t = s + "+00:00"@;
    assert(t.subrange(t.len() - "+00:00"@.len(), t.len() as int) =~= "+00:00"@);
    assert(ends_with(t, "+00:00"@));
    assert(t.subrange(0, t.len() - "+00:00"@.len()) =~= s);
}

/// The scan keeps its words nonempty and free of whitespace.
proof fn lemma_scan_words(s: Seq<char>)
    ensures
        forall|i: int| 0 <= i < scan_words(s).0.len() ==> #[trigger] scan_words(s).0[i].len() > 0,
        forall|i: int, j: int|
            0 <= i < scan_words(s).0.len() && 0 <= j < scan_words(s).0[i].len() ==> !is_white(
                #[trigger] scan_words(s).0[i][j],
            ),
        forall|j: int| 0 <= j < scan_words(s).1.len() ==> !is_white(#[trigger] scan_words(s).1[j]),
    decreases s.len(),
{
    if s.len() > 0 {
        lemma_scan_words(s.drop_last());
        let (done, cur) = scan_words(s.drop_last());
        if !is_white(s.last()) {
            assert forall|j: int| 0 <= j < cur.push(s.last()).len() implies !is_white(
                #[trigger] cur.push(s.last())[j],
            ) by {
                if j < cur.len() {
                    assert(cur.push(s.last())[j] == cur[j]);
                }
            }
        }
    }
}

/// The words of a line are nonempty and hold no whitespace.
pub proof fn law_words_are_nonblank(s: Seq<char>)
    ensures
        forall|i: int| 0 <= i < words(s).len() ==> #[trigger] words(s)[i].len() > 0,
        forall|i: int, j: int|
            0 <= i < words(s).len() && 0 <= j < words(s)[i].len() ==> !is_white(
                #[trigger] words(s)[i][j],
            ),
{
    lemma_scan_words(s);
}

/// The messages among `conv[..n]` whose period is one of `keys` (a key
/// listed twice counts twice).
spec fn keys_total(conv: Seq<Message>, iv: Interval, keys: Seq<Seq<char>>, n: int) -> nat
    decreases keys.len(),
{
    if keys.len() == 0 {
        0
    } else {
        keys_total(conv, iv, keys.drop_last(), n) + period_count(conv, iv, keys.last(), n)
    }
}

/// How often `k` is listed in `keys`.
spec fn listings(keys: Seq<Seq<char>>, k: Seq<char>) -> nat
    decreases keys.len(),
{
    if keys.len() == 0 {
        0
    } else {
        listings(keys.drop_last(), k) + (if keys.last() == k {
            1nat
        } else {
            0nat
        })
    }
}

/// One message more adds, for each listing of its period, one to the total.
proof fn lemma_keys_total_step(conv: Seq<Message>, iv: Interval, keys: Seq<Seq<char>>, n: int)
    requires
        0 <= n < conv.len(),
        period_key(conv[n].created_at@, iv) is Some,
    ensures
        keys_total(conv, iv, keys, n + 1) == keys_total(conv, iv, keys, n) + listings(
            keys,
            period_key(conv[n].created_at@, iv)->0,
        ),
    decreases keys.len(),
{
    if keys.len() > 0 {
        lemma_keys_total_step(conv, iv, keys.drop_last(), n);
    }
}

/// A key listed once, in distinct keys, is listed once.
proof fn lemma_listed_once(keys: Seq<Seq<char>>, k: Seq<char>)
    requires
        keys.no_duplicates(),
    ensures
        keys.contains(k) ==> listings(keys, k) == 1,
        !keys.contains(k) ==> listings(keys, k) == 0,
    decreases keys.len(),
{
    if keys.len() > 0 {
        let init = keys.drop_last();
        assert(init.no_duplicates()) by {
            assert forall|i: int, j: int| 0 <= i < init.len() && 0 <= j < init.len() && i != j implies init[i] != init[j] by {
                assert(init[i] == keys[i] && init[j] == keys[j]);
            }
        }
        lemma_listed_once(init, k);
        if keys.last() == k {
            assert forall|i: int| 0 <= i < init.len() implies init[i] != k by {
                assert(init[i] == keys[i]);
            }
        } else if keys.contains(k) {
            let w = choose|w: int| 0 <= w < keys.len() && keys[w] == k;
            assert(init[w] == k);
        } else {
            assert forall|i: int| 0 <= i < init.len() implies init[i] != k by {
                assert(init[i] == keys[i]);
            }
        }
    }
}

/// Distinct keys that hold the period of every message count every message
/// once.
proof fn lemma_keys_total_all(conv: Seq<Message>, iv: Interval, keys: Seq<Seq<char>>, n: int)
    requires
        0 <= n <= conv.len(),
        keys.no_duplicates(),
        all_keyed(conv, iv, conv.len() as int),
        forall|m: int|
            0 <= m < conv.len() ==> keys.contains(#[trigger] period_key(conv[m].created_at@, iv)->0),
    ensures
        keys_total(conv, iv, keys, n) == n,
    decreases n,
{
    if n == 0 {
        lemma_keys_total_zero(conv, iv, keys);
    } else {
        lemma_keys_total_all(conv, iv, keys, n - 1);
        assert(period_key(conv[n - 1].created_at@, iv) is Some);
        lemma_keys_total_step(conv, iv, keys, n - 1);
        lemma_listed_once(keys, period_key(conv[n - 1].created_at@, iv)->0);
    }
}

/// Before any message, nothing is counted.
proof fn lemma_keys_total_zero(conv: Seq<Message>, iv: Interval, keys: Seq<Seq<char>>)
    ensures
        keys_total(conv, iv, keys, 0) == 0,
    decreases keys.len(),
{
    if keys.len() > 0 {
        lemma_keys_total_zero(conv, iv, keys.drop_last());
    }
}

/// The counts of a tally add up to its keys' total.
proof fn lemma_period_counts_total(r: Seq<(Seq<char>, nat)>, conv: Seq<Message>, iv: Interval)
    requires
        forall|i: int|
            0 <= i < r.len() ==> #[trigger] r[i].1 == period_count(
                conv,
                iv,
                r[i].0,
                conv.len() as int,
            ),
    ensures
        count_sum(r) == keys_total(conv, iv, entry_names(r), conv.len() as int),
    decreases r.len(),
{
    if r.len() > 0 {
        let init = r.drop_last();
        assert forall|i: int| 0 <= i < init.len() implies #[trigger] init[i].1 == period_count(
            conv,
            iv,
            init[i].0,
            conv.len() as int,
        ) by {
            assert(init[i] == r[i]);
        }
        lemma_period_counts_total(init, conv, iv);
        assert(entry_names(r).drop_last() =~= entry_names(init));
        assert(r.last().1 == period_count(conv, iv, r.last().0, conv.len() as int)) by {
            assert(r[r.len() - 1] == r.last());
        }
    }
}

/// Counting messages per period accounts for every message exactly once: the
/// counts add up to the number of messages.
pub proof fn law_periods_count_every_message(
    r: Seq<(Seq<char>, nat)>,
    conv: Seq<Message>,
    iv: Interval,
)
    requires
        tallies(r, conv, iv),
        all_keyed(conv, iv, conv.len() as int),
    ensures
        count_sum(r) == conv.len(),
{
    let keys = entry_names(r);
    assert(keys.no_duplicates()) by {
        assert forall|i: int, j: int| 0 <= i < keys.len() && 0 <= j < keys.len() && i != j implies keys[i] != keys[j] by {
            lemma_lex_irreflexive(r[i].0);
            if i < j {
                assert(lex_less(r[i].0, r[j].0));
            } else {
                assert(lex_less(r[j].0, r[i].0));
            }
        }
    }
    lemma_period_counts_total(r, conv, iv);
    lemma_keys_total_all(conv, iv, keys, conv.len() as int);
}

/// The sum of the counts of a list of entries.
pub open spec fn count_sum(r: Seq<(Seq<char>, nat)>) -> nat
    decreases r.len(),
{
    if r.len() == 0 {
        0
    } else {
        count_sum(r.drop_last()) + r.last().1
    }
}

/// The number of messages among `conv[..n]` sent by someone in `ps`.
pub open spec fn messages_by(conv: Seq<Message>, ps: Seq<Seq<char>>, n: int) -> nat
    decreases n,
{
    if n <= 0 || n > conv.len() {
        0
    } else {
        messages_by(conv, ps, n - 1) + (if ps.contains(conv[n - 1].sender@) {
            1nat
        } else {
            0nat
        })
    }
}

/// The messages among `conv[..n]` sent by the users `names` (a name listed
/// twice counts twice).
spec fn names_total(conv: Seq<Message>, names: Seq<Seq<char>>, n: int) -> nat
    decreases names.len(),
{
    if names.len() == 0 {
        0
    } else {
        names_total(conv, names.drop_last(), n) + sent_count(conv.take(n), names.last())
    }
}

/// One message more adds one per listing of its sender.
proof fn lemma_names_total_step(conv: Seq<Message>, names: Seq<Seq<char>>, n: int)
    requires
        0 <= n < conv.len(),
    ensures
        names_total(conv, names, n + 1) == names_total(conv, names, n) + listings(
            names,
            conv[n].sender@,
        ),
    decreases names.len(),
{
    assert(conv.take(n + 1).drop_last() =~= conv.take(n));
    if names.len() > 0 {
        lemma_names_total_step(conv, names.drop_last(), n);
    }
}

/// Before any message, no one sent anything.
proof fn lemma_names_total_zero(conv: Seq<Message>, names: Seq<Seq<char>>)
    ensures
        names_total(conv, names, 0) == 0,
    decreases names.len(),
{
    assert(conv.take(0).len() == 0);
    if names.len() > 0 {
        lemma_names_total_zero(conv, names.drop_last());
    }
}

/// Distinct names that hold every participant who sent something, and only
/// participants, count the messages of participants once each.
proof fn lemma_names_total_all(
    conv: Seq<Message>,
    ps: Seq<Seq<char>>,
    names: Seq<Seq<char>>,
    n: int,
)
    requires
        0 <= n <= conv.len(),
        names.no_duplicates(),
        forall|m: int|
            0 <= m < conv.len() ==> (names.contains(#[trigger] conv[m].sender@) <==> ps.contains(
                conv[m].sender@,
            )),
    ensures
        names_total(conv, names, n) == messages_by(conv, ps, n),
    decreases n,
{
    if n == 0 {
        lemma_names_total_zero(conv, names);
    } else {
        lemma_names_total_all(conv, ps, names, n - 1);
        lemma_names_total_step(conv, names, n - 1);
        lemma_listed_once(names, conv[n - 1].sender@);
    }
}

/// Every participant among `ps[..k]` who sent something is among the active
/// senders.
proof fn lemma_active_senders_complete(ps: Seq<Seq<char>>, conv: Seq<Message>, k: int, p: Seq<char>)
    requires
        0 <= k <= ps.len(),
        ps.take(k).contains(p),
        sent_count(conv, p) > 0,
    ensures
        entry_names(active_senders(ps, conv, k)).contains(p),
    decreases k,
{
    let prev = active_senders(ps, conv, k - 1);
    let cur = active_senders(ps, conv, k);
    if ps.take(k - 1).contains(p) {
        lemma_active_senders_complete(ps, conv, k - 1, p);
        let w = choose|w: int| 0 <= w < entry_names(prev).len() && entry_names(prev)[w] == p;
        assert(entry_names(cur)[w] == p);
    } else {
        let w = choose|w: int| 0 <= w < k && ps.take(k)[w] == p;
        if w < k - 1 {
            assert(ps.take(k - 1)[w] == p);
        }
        assert(ps[k - 1] == p);
        assert(entry_names(cur)[prev.len() as int] == p);
    }
}

/// The entries of the active senders carry each sender's own count.
proof fn lemma_active_counts(ps: Seq<Seq<char>>, conv: Seq<Message>, k: int)
    requires
        0 <= k <= ps.len(),
    ensures
        forall|i: int|
            0 <= i < active_senders(ps, conv, k).len() ==> #[trigger] active_senders(
                ps,
                conv,
                k,
            )[i].1 == sent_count(conv, active_senders(ps, conv, k)[i].0) && sent_count(
                conv,
                active_senders(ps, conv, k)[i].0,
            ) > 0 && ps.contains(active_senders(ps, conv, k)[i].0),
    decreases k,
{
    if k > 0 {
        lemma_active_counts(ps, conv, k - 1);
        let prev = active_senders(ps, conv, k - 1);
        let cur = active_senders(ps, conv, k);
        assert forall|i: int| 0 <= i < cur.len() implies #[trigger] cur[i].1 == sent_count(
            conv,
            cur[i].0,
        ) && sent_count(conv, cur[i].0) > 0 && ps.contains(cur[i].0) by {
            if i < prev.len() {
                assert(cur[i] == prev[i]);
            } else {
                assert(ps[k - 1] == cur[i].0);
            }
        }
    }
}

/// The sum of the counts equals the total of the listed names.
proof fn lemma_count_sum_is_total(r: Seq<(Seq<char>, nat)>, conv: Seq<Message>)
    requires
        forall|i: int| 0 <= i < r.len() ==> #[trigger] r[i].1 == sent_count(conv, r[i].0),
    ensures
        count_sum(r) == names_total(conv, entry_names(r), conv.len() as int),
    decreases r.len(),
{
    assert(conv.take(conv.len() as int) =~= conv);
    if r.len() > 0 {
        let init = r.drop_last();
        assert forall|i: int| 0 <= i < init.len() implies #[trigger] init[i].1 == sent_count(
            conv,
            init[i].0,
        ) by {
            assert(init[i] == r[i]);
        }
        lemma_count_sum_is_total(init, conv);
        assert(entry_names(r).drop_last() =~= entry_names(init));
        assert(r[r.len() - 1] == r.last());
    }
}

/// The leaderboard accounts for every message sent by a participant exactly
/// once: its counts add up to the number of such messages.
pub proof fn law_leaderboard_counts_every_message(r: Seq<(Seq<char>, nat)>, t: Thread)
    requires
        ranks(
            r,
            active_senders(texts(t.participants@), t.conversation@, t.participants@.len() as int),
        ),
    ensures
        count_sum(r) == messages_by(
            t.conversation@,
            texts(t.participants@),
            t.conversation@.len() as int,
        ),
{
    let ps = texts(t.participants@);
    let conv = t.conversation@;
    let d = active_senders(ps, conv, ps.len() as int);
    lemma_active_counts(ps, conv, ps.len() as int);
    assert(ps.take(ps.len() as int) =~= ps);
    // Every entry of r is an entry of d.
    assert forall|i: int| 0 <= i < r.len() implies #[trigger] r[i].1 == sent_count(conv, r[i].0)
        && ps.contains(r[i].0) by {
        assert(r.to_set().contains(r[i]));
        assert(d.to_set().contains(r[i]));
        let a = choose|a: int| 0 <= a < d.len() && d[a] == r[i];
    }
    let names = entry_names(r);
    assert(names.no_duplicates()) by {
        assert forall|i: int, j: int| 0 <= i < names.len() && 0 <= j < names.len() && i != j implies names[i] != names[j] by {
            if names[i] == names[j] {
                assert(r[i] == r[j]);
            }
        }
    }
    assert forall|m: int| 0 <= m < conv.len() implies (names.contains(#[trigger] conv[m].sender@)
        <==> ps.contains(conv[m].sender@)) by {
        let u = conv[m].sender@;
        if names.contains(u) {
            let i = choose|i: int| 0 <= i < names.len() && names[i] == u;
            assert(r[i].1 == sent_count(conv, r[i].0));
            assert(ps.contains(r[i].0));
        }
        if ps.contains(u) {
            lemma_sent_count_positive(conv, m);
            lemma_active_senders_complete(ps, conv, ps.len() as int, u);
            let a = choose|a: int| 0 <= a < entry_names(d).len() && entry_names(d)[a] == u;
            assert(d.to_set().contains(d[a]));
            assert(r.to_set().contains(d[a]));
            let i = choose|i: int| 0 <= i < r.len() && r[i] == d[a];
            assert(names[i] == u);
        }
    }
    lemma_count_sum_is_total(r, conv);
    lemma_names_total_all(conv, ps, names, conv.len() as int);
}

/// A user who sent message `m` sent at least one message.
proof fn lemma_sent_count_positive(conv: Seq<Message>, m: int)
    requires
        0 <= m < conv.len(),
    ensures
        sent_count(conv, conv[m].sender@) > 0,
    decreases conv.len(),
{
    if m < conv.len() - 1 {
        lemma_sent_count_positive(conv.drop_last(), m);
        assert(conv.drop_last()[m] == conv[m]);
    }
}

/// Where `first_index` lands, when `me` is listed.
proof fn lemma_first_index_found(ps: Seq<Seq<char>>, me: Seq<char>, from: int)
    requires
        0 <= from <= ps.len(),
        exists|j: int| from <= j < ps.len() && ps[j] == me,
    ensures
        from <= first_index(ps, me, from) < ps.len(),
        ps[first_index(ps, me, from)] == me,
    decreases ps.len() - from,
{
    if ps[from] != me {
        lemma_first_index_found(ps, me, from + 1);
    }
}

/// The thread list leaves the user out of the names it shows, as long as
/// the user is listed at most once among a thread's participants.
pub proof fn law_listing_leaves_out_user(t: Thread, i: nat, current: nat, me: Seq<char>)
    requires
        overview_defined(t, me),
        forall|a: int, b: int|
            0 <= a < t.participants@.len() && 0 <= b < t.participants@.len() && t.participants@[a]@
                == me && t.participants@[b]@ == me ==> a == b,
    ensures
        forall|k: int|
            2 <= k < overview_line(t, i, current, me).len() && overview_line(t, i, current, me)[k].1
                == Style::Name ==> #[trigger] overview_line(t, i, current, me)[k].0 != me,
{
    let ps = texts(t.participants@);
    if ps.len() != 1 {
        assert(ps.contains(me));
        let j = choose|j: int| 0 <= j < ps.len() && ps[j] == me;
        lemma_first_index_found(ps, me, 0);
        let idx = first_index(ps, me, 0);
        let o = others(ps, me);
        assert forall|x: int| 0 <= x < o.len() implies o[x] != me by {
            if x < idx {
                assert(o[x] == ps[x]);
                assert(t.participants@[x]@ == ps[x]);
            } else {
                assert(o[x] == ps[x + 1]);
                assert(t.participants@[x + 1]@ == ps[x + 1]);
            }
            assert(t.participants@[idx]@ == ps[idx]);
        }
    }
}

/// `l` and `m` on their own show the likes and the media of the message
/// shown before the prompt, and leave the position and settings alone; only
/// `m` shows that message again.
pub proof fn law_likes_and_media_of_shown_message(b: Browser, t: Thread, line: Seq<char>)
    requires
        ready(b, t),
        command_line(line, "l"@) || command_line(line, "m"@),
        words(line).len() == 1,
    ensures
        command_line(line, "l"@) ==> browse_step(b, t, line) == (
            b,
            BrowseReplyOf::<Seq<char>, Seq<usize>>::Likes(shown(b, t) as usize),
            false,
        ),
        command_line(line, "m"@) ==> browse_step(b, t, line) == (
            b,
            BrowseReplyOf::<Seq<char>, Seq<usize>>::Media(shown(b, t) as usize),
            true,
        ),
{
    reveal_strlit(".");
    reveal_strlit("=");
    reveal_strlit("+");
    reveal_strlit(",");
    reveal_strlit("-");
    reveal_strlit("_");
    reveal_strlit("s");
    reveal_strlit("e");
    reveal_strlit("af");
    reveal_strlit("raf");
    reveal_strlit("m");
    reveal_strlit("l");
}

/// `l n` and `m n`, for a message id `n` in range, show the likes and the
/// media of message `n`, that is of `conversation[len - 1 - n]`, wherever the
/// browser stands, and leave it where it is.
pub proof fn law_likes_and_media_of_message_id(b: Browser, t: Thread, line: Seq<char>, n: nat)
    requires
        command_line(line, "l"@) || command_line(line, "m"@),
        words(line).len() > 1,
        parsed_usize(words(line)[1]) == Some(n),
        0 < n < t.conversation@.len(),
    ensures
        command_line(line, "l"@) ==> browse_step(b, t, line) == (
            b,
            BrowseReplyOf::<Seq<char>, Seq<usize>>::Likes((t.conversation@.len() - 1 - n) as usize),
            false,
        ),
        command_line(line, "m"@) ==> browse_step(b, t, line) == (
            b,
            BrowseReplyOf::<Seq<char>, Seq<usize>>::Media((t.conversation@.len() - 1 - n) as usize),
            true,
        ),
{
    reveal_strlit(".");
    reveal_strlit("=");
    reveal_strlit("+");
    reveal_strlit(",");
    reveal_strlit("-");
    reveal_strlit("_");
    reveal_strlit("s");
    reveal_strlit("e");
    reveal_strlit("af");
    reveal_strlit("raf");
    reveal_strlit("m");
    reveal_strlit("l");
}

/// `ams-mot` counts per the period its argument names: `d` days, `m`
/// months, `y` years; with no argument or any other, months. It changes
/// nothing.
pub proof fn law_over_time_period(c: Console, archive: Seq<Thread>, line: Seq<char>)
    requires
        command_line(line, "ams-mot"@),
    ensures
        console_step(c, archive, line).0 == c,
        words(line).len() > 1 && words(line)[1] == "d"@ ==> console_step(c, archive, line).1
            == ConsoleReplyView::OverTime(Interval::Day),
        words(line).len() > 1 && words(line)[1] == "m"@ ==> console_step(c, archive, line).1
            == ConsoleReplyView::OverTime(Interval::Month),
        words(line).len() > 1 && words(line)[1] == "y"@ ==> console_step(c, archive, line).1
            == ConsoleReplyView::OverTime(Interval::Year),
        words(line).len() <= 1 ==> console_step(c, archive, line).1 == ConsoleReplyView::OverTime(
            Interval::Month,
        ),
        words(line).len() > 1 && words(line)[1] != "d"@ && words(line)[1] != "y"@ ==> console_step(
            c,
            archive,
            line,
        ).1 == ConsoleReplyView::OverTime(Interval::Month),
{
    reveal_strlit("lat");
    reveal_strlit("p");
    reveal_strlit("ct");
    reveal_strlit("ti");
    reveal_strlit("ams");
    reveal_strlit("ams-mot");
    reveal_strlit("d");
    reveal_strlit("m");
    reveal_strlit("y");
    let w = words(line)[0];
    assert(w == "ams-mot"@ && w.len() == 7 && w[3] == '-');
    assert(w != "lat"@ && w != "p"@ && w != "ct"@ && w != "ti"@ && w != "ams"@);
    assert(encode_utf8(line).len() != 1);
}

/// In the thread list, the line of thread `i` begins with `>>> ` exactly
/// when `i` is the selected thread and someone besides the user takes part
/// in it, and with four spaces otherwise; `thread ` and the thread's number
/// follow.
pub proof fn law_listing_marks_selected(t: Thread, i: nat, current: nat, me: Seq<char>)
    requires
        overview_defined(t, me),
    ensures
        ({
            let l = overview_line(t, i, current, me);
            let marked = i == current && t.participants@.len() > 1;
            &&& l.len() >= 2
            &&& l[0].1 == Style::Plain
            &&& l[0].0.len() == 11
            &&& marked ==> l[0].0.take(4) == ">>> "@
            &&& !marked ==> l[0].0.take(4) == "    "@
            &&& l[0].0.skip(4) == "thread "@
            &&& l[1] == (decimal(i), Style::Name)
        }),
{
    reveal_strlit(">>> ");
    reveal_strlit("    ");
    reveal_strlit("thread ");
    reveal_strlit("    thread ");
    let l = overview_line(t, i, current, me);
    let ps = texts(t.participants@);
    assert(ps.len() == t.participants@.len());
    if ps.len() == 1 {
        assert(l[0].0 =~= "    thread "@);
        assert(l[0].0.take(4) =~= "    "@);
        assert(l[0].0.skip(4) =~= "thread "@);
    } else if i == current {
        assert(l[0].0 =~= ">>> "@ + "thread "@);
        assert(l[0].0.take(4) =~= ">>> "@);
        assert(l[0].0.skip(4) =~= "thread "@);
    } else {
        assert(l[0].0 =~= "    "@ + "thread "@);
        assert(l[0].0.take(4) =~= "    "@);
        assert(l[0].0.skip(4) =~= "thread "@);
    }
}

/// A message of a kind shown with a like counter: text, media, media url or
/// shared media.
pub open spec fn has_like_counter(m: Message) -> bool {
    m.text is Some || m.media is Some || m.media_url is Some || m.media_owner is Some
}

/// The header of a message's line: all of it but, for a text, the text
/// itself on the line after.
pub open spec fn message_header(m: Message) -> Seq<(Seq<char>, Style)> {
    if m.text is Some {
        message_line(m).drop_last()
    } else {
        message_line(m)
    }
}

/// A message is shown as `  user <sender> on <time without +00:00>`, then
/// what it is. A message with likes, of a kind that has a like counter, ends
/// its header with `[<3 xN]`, N being its number of likes; no other message
/// shows a counter, and the only other piece shown in red is the heart.
pub proof fn law_message_like_counter(m: Message)
    ensures
        ({
            let l = message_line(m);
            let h = message_header(m);
            &&& l.len() >= 5
            &&& l[0] == ("  user "@, Style::Plain)
            &&& l[1] == (m.sender@, Style::Name)
            &&& l[2] == (" on "@, Style::Plain)
            &&& l[3] == (shown_time(m.created_at@), Style::Time)
            &&& has_like_counter(m) && m.likes is Some ==> h.last() == (
                "[<3 x"@ + decimal(m.likes->0@.len()) + "]"@,
                Style::Love,
            )
            &&& !(has_like_counter(m) && m.likes is Some) ==> forall|k: int|
                0 <= k < l.len() && #[trigger] l[k].1 == Style::Love ==> m.heart is Some && l[k].0
                    == "<3"@
        }),
{
    let l = message_line(m);
    if m.text is Some {
        assert(message_header(m).last() == l[l.len() - 2]);
    }
}

/// The total over `ps[..k]` is what the names listed there sent.
proof fn lemma_listed_total_names(ps: Seq<Seq<char>>, conv: Seq<Message>, k: int)
    requires
        0 <= k <= ps.len(),
    ensures
        listed_total(ps, conv, k) == names_total(conv, ps.take(k), conv.len() as int),
    decreases k,
{
    assert(conv.take(conv.len() as int) =~= conv);
    if k > 0 {
        lemma_listed_total_names(ps, conv, k - 1);
        assert(ps.take(k).drop_last() =~= ps.take(k - 1));
        assert(ps.take(k).last() == ps[k - 1]);
    }
}

/// The leaderboard total takes in every listed participant, the last one
/// too: listing one more name adds exactly the messages that name sent.
pub proof fn law_leaderboard_total_adds_each_name(ps: Seq<Seq<char>>, conv: Seq<Message>, p: Seq<char>)
    ensures
        listed_total(seq![], conv, 0) == 0,
        listed_total(ps.push(p), conv, ps.len() + 1 as int) == listed_total(ps, conv, ps.len() as int)
            + sent_count(conv, p),
{
    lemma_listed_total_names(ps, conv, ps.len() as int);
    lemma_listed_total_names(ps.push(p), conv, ps.len() + 1 as int);
    assert(ps.push(p).take(ps.len() + 1 as int).drop_last() =~= ps.take(ps.len() as int));
    assert(conv.take(conv.len() as int) =~= conv);
}

/// With each participant listed once, the leaderboard total is the number of
/// messages sent by participants, which is also the sum of the leaderboard's
/// counts: the shares shown add up to the whole.
pub proof fn law_leaderboard_total_is_sum(r: Seq<(Seq<char>, nat)>, t: Thread)
    requires
        ranks(
            r,
            active_senders(texts(t.participants@), t.conversation@, t.participants@.len() as int),
        ),
        texts(t.participants@).no_duplicates(),
    ensures
        listed_total(texts(t.participants@), t.conversation@, t.participants@.len() as int)
            == messages_by(t.conversation@, texts(t.participants@), t.conversation@.len() as int),
        listed_total(texts(t.participants@), t.conversation@, t.participants@.len() as int)
            == count_sum(r),
{
    let ps = texts(t.participants@);
    let conv = t.conversation@;
    lemma_listed_total_names(ps, conv, ps.len() as int);
    assert(ps.take(ps.len() as int) =~= ps);
    lemma_names_total_all(conv, ps, ps, conv.len() as int);
    law_leaderboard_counts_every_message(r, t);
}

/// The thread-mode commands that take no argument answer with what they
/// name and leave the selected thread alone.
pub proof fn law_console_commands(c: Console, archive: Seq<Thread>, line: Seq<char>)
    requires
        encode_utf8(line).len() >= 2,
        words(line).len() > 0,
    ensures
        ({
            let w = words(line)[0];
            let (next, reply) = console_step(c, archive, line);
            &&& w == "lat"@ ==> next == c && reply == ConsoleReplyView::ListThreads
            &&& w == "p"@ ==> next == c && reply == ConsoleReplyView::Participants
            &&& w == "ct"@ ==> next == c && reply == ConsoleReplyView::CurrentThread
            &&& w == "ams"@ ==> next == c && reply == ConsoleReplyView::Stats
            &&& w == "ams-dt"@ ==> next == c && reply == ConsoleReplyView::DeltaTime
            &&& w == "n"@ ==> next == c && reply == ConsoleReplyView::NameChanges
            &&& w == "m!"@ ==> next == c && reply == ConsoleReplyView::Browse
            &&& w == "fts"@ ==> next == c && reply == ConsoleReplyView::Setup
            &&& w == "h"@ ==> next == c && reply == ConsoleReplyView::Help
            &&& w == "q"@ ==> next == c && reply == ConsoleReplyView::Quit
        }),
{
    reveal_strlit("lat");
    reveal_strlit("p");
    reveal_strlit("ct");
    reveal_strlit("ti");
    reveal_strlit("ams");
    reveal_strlit("ams-mot");
    reveal_strlit("ams-dt");
    reveal_strlit("n");
    reveal_strlit("t");
    reveal_strlit("m!");
    reveal_strlit("gf");
    reveal_strlit("gfu");
    reveal_strlit("fts");
    reveal_strlit("h");
    reveal_strlit("q");
    let w = words(line)[0];
    assert(encode_utf8(line).len() != 1);
    if w.len() == 1 {
        assert(w[0] == "p"@[0] || w[0] != "p"@[0]);
        assert("n"@[0] == 'n' && "t"@[0] == 't' && "h"@[0] == 'h' && "q"@[0] == 'q');
        assert(w != "lat"@ && w != "ct"@ && w != "ti"@ && w != "ams"@ && w != "ams-mot"@);
        assert(w != "ams-dt"@ && w != "m!"@ && w != "gf"@ && w != "gfu"@ && w != "fts"@);
    } else if w.len() == 2 {
        assert(w[0] == "ct"@[0] || w[0] != "ct"@[0]);
        assert(w[1] == "ct"@[1] || w[1] != "ct"@[1]);
        assert("ti"@[0] == 't' && "m!"@[0] == 'm' && "gf"@[0] == 'g');
        assert(w != "lat"@ && w != "p"@ && w != "ams"@ && w != "ams-mot"@ && w != "n"@);
        assert(w != "ams-dt"@ && w != "t"@ && w != "gfu"@ && w != "fts"@ && w != "h"@);
    } else if w.len() == 3 {
        assert(w[0] == "lat"@[0] || w[0] != "lat"@[0]);
        assert("ams"@[0] == 'a' && "gfu"@[0] == 'g' && "fts"@[0] == 'f');
        assert(w != "p"@ && w != "ct"@ && w != "ti"@ && w != "ams-mot"@ && w != "n"@);
        assert(w != "ams-dt"@ && w != "t"@ && w != "m!"@ && w != "gf"@ && w != "h"@);
    } else {
        assert(w[4] == "ams-dt"@[4] || w[4] != "ams-dt"@[4]);
        assert("ams-mot"@[4] == 'm' && "ams-dt"@[4] == 'd');
        assert(w != "lat"@ && w != "p"@ && w != "ct"@ && w != "ti"@ && w != "ams"@);
        assert(w != "n"@ && w != "t"@ && w != "m!"@ && w != "gf"@ && w != "gfu"@);
    }
}

/// `b2` is `b` moved to message id `k`, with the same settings.
pub open spec fn moved_to(b2: Browser, b: Browser, k: int) -> bool {
    b2.current == k && b2.auto_forward == b.auto_forward && b2.forwards == b.forwards
}

/// An input line under two bytes moves one message in the auto-forward
/// direction when auto-forward is on, and stops at either end with a note;
/// a line of blanks does nothing and shows nothing again.
pub proof fn law_browse_short_and_blank_lines(b: Browser, t: Thread, line: Seq<char>)
    requires
        ready(b, t),
        t.conversation@.len() <= usize::MAX,
    ensures
        ({
            let len = t.conversation@.len();
            let (nb, reply, show) = browse_step(b, t, line);
            let short = encode_utf8(line).len() < 2;
            &&& short && !b.auto_forward ==> nb == b && reply == BrowseReplyOf::<
                Seq<char>,
                Seq<usize>,
            >::Nothing && show
            &&& short && b.auto_forward && b.forwards && b.current + 1 < len ==> moved_to(
                nb,
                b,
                b.current + 1,
            ) && reply == BrowseReplyOf::<Seq<char>, Seq<usize>>::Nothing && show
            &&& short && b.auto_forward && b.forwards && b.current + 1 == len ==> nb == b && reply
                == BrowseReplyOf::<Seq<char>, Seq<usize>>::ReachedEnd && !show
            &&& short && b.auto_forward && !b.forwards && b.current > 0 ==> moved_to(
                nb,
                b,
                b.current - 1,
            ) && reply == BrowseReplyOf::<Seq<char>, Seq<usize>>::Nothing && show
            &&& short && b.auto_forward && !b.forwards && b.current == 0 ==> nb == b && reply
                == BrowseReplyOf::<Seq<char>, Seq<usize>>::ReachedStart && !show
            &&& !short && words(line).len() == 0 ==> nb == b && reply == BrowseReplyOf::<
                Seq<char>,
                Seq<usize>,
            >::Nothing && !show
        }),
{
}

/// The moving commands of message mode: `.`, `=` and `+` go to the next
/// message, or note the end at the newest one; `,`, `-` and `_` go to the
/// previous one, or note the start at the oldest; `s` goes to the oldest and
/// `e` to the newest. `h` and `q` stay where they are. The settings never
/// change.
pub proof fn law_browse_moves(b: Browser, t: Thread, line: Seq<char>)
    requires
        ready(b, t),
        t.conversation@.len() <= usize::MAX,
        encode_utf8(line).len() >= 2,
        words(line).len() > 0,
    ensures
        ({
            let len = t.conversation@.len();
            let w = words(line)[0];
            let (nb, reply, show) = browse_step(b, t, line);
            let next = w == "."@ || w == "="@ || w == "+"@;
            let prev = w == ","@ || w == "-"@ || w == "_"@;
            &&& next && b.current + 1 < len ==> moved_to(nb, b, b.current + 1) && reply
                == BrowseReplyOf::<Seq<char>, Seq<usize>>::Nothing && show
            &&& next && b.current + 1 == len ==> nb == b && reply == BrowseReplyOf::<
                Seq<char>,
                Seq<usize>,
            >::ReachedEnd && !show
            &&& prev && b.current > 0 ==> moved_to(nb, b, b.current - 1) && reply
                == BrowseReplyOf::<Seq<char>, Seq<usize>>::Nothing && show
            &&& prev && b.current == 0 ==> nb == b && reply == BrowseReplyOf::<
                Seq<char>,
                Seq<usize>,
            >::ReachedStart && !show
            &&& w == "s"@ ==> moved_to(nb, b, 0) && reply == BrowseReplyOf::<
                Seq<char>,
                Seq<usize>,
            >::Nothing && show
            &&& w == "e"@ ==> moved_to(nb, b, len - 1) && reply == BrowseReplyOf::<
                Seq<char>,
                Seq<usize>,
            >::Nothing && show
            &&& w == "h"@ ==> nb == b && reply == BrowseReplyOf::<Seq<char>, Seq<usize>>::Help
                && show
            &&& w == "q"@ ==> nb == b && reply == BrowseReplyOf::<Seq<char>, Seq<usize>>::Quit
                && show
        }),
{
    reveal_strlit(".");
    reveal_strlit("=");
    reveal_strlit("+");
    reveal_strlit(",");
    reveal_strlit("-");
    reveal_strlit("_");
    reveal_strlit("s");
    reveal_strlit("e");
    reveal_strlit("af");
    reveal_strlit("raf");
    reveal_strlit("m");
    reveal_strlit("l");
    reveal_strlit("f");
    reveal_strlit("fu");
    reveal_strlit("h");
    reveal_strlit("q");
    let w = words(line)[0];
    if w.len() == 1 {
        assert(w[0] == "."@[0] || w[0] != "."@[0]);
        assert("s"@[0] == 's' && "e"@[0] == 'e' && "h"@[0] == 'h' && "q"@[0] == 'q');
        assert("m"@[0] == 'm' && "l"@[0] == 'l' && "f"@[0] == 'f');
        assert("."@[0] == '.' && "="@[0] == '=' && "+"@[0] == '+');
        assert(","@[0] == ',' && "-"@[0] == '-' && "_"@[0] == '_');
    }
}

/// After sender and time, a message's line says what the message is, by
/// the first part it has in the order text, media, media url, shared media,
/// action, heart, video call action, live video invite; a text comes last,
/// on a line of its own. The header holds the counter only where the kind
/// has one and the message has likes.
pub proof fn law_message_kind(m: Message)
    ensures
        ({
            let l = message_line(m);
            let badge: int = if has_like_counter(m) && m.likes is Some {
                1
            } else {
                0
            };
            &&& m.text is Some ==> l[4] == plain(" wrote: "@) && l.last() == plain(
                "\n  "@ + m.text->0@,
            ) && l.len() == 6 + badge
            &&& m.text is None && m.media is Some ==> l[4] == plain(" sent media. "@) && l.len()
                == 5 + badge
            &&& m.text is None && m.media is None && m.media_url is Some ==> l[4] == plain(
                " sent media_url media.... "@,
            ) && l.len() == 5 + badge
            &&& m.text is None && m.media is None && m.media_url is None && m.media_owner is Some
                ==> l[4] == plain(" sent media from "@ + m.media_owner->0@ + ". "@) && l.len() == 5
                + badge
            &&& !has_like_counter(m) && m.action is Some ==> l == message_header(m) && l.len() == 5
                && l[4] == plain(" took action '"@ + m.action->0@ + "'"@)
            &&& !has_like_counter(m) && m.action is None && m.heart is Some ==> l.len() == 6 && l[4]
                == plain(" sent "@) && l[5] == ("<3"@, Style::Love)
            &&& !has_like_counter(m) && m.action is None && m.heart is None
                && m.video_call_action is Some ==> l.len() == 5 && l[4] == plain(
                " took vidcall action '"@ + m.video_call_action->0@ + "'"@,
            )
            &&& !has_like_counter(m) && m.action is None && m.heart is None
                && m.video_call_action is None && m.live_video_invite is Some ==> l.len() == 5
                && l[4] == plain(" sent a live video invite"@)
            &&& !has_like_counter(m) && m.action is None && m.heart is None
                && m.video_call_action is None && m.live_video_invite is None ==> l.len() == 5
                && l[4] == plain(" did ???"@)
        }),
{
}

/// After its number, the line of a thread says `with just yourself` where the
/// user is alone in it, names the other participant of a two-person thread,
/// and otherwise gives the number of participants and names two of the
/// others; every name shown takes part in the thread.
pub proof fn law_listing_names_participants(t: Thread, i: nat, current: nat, me: Seq<char>)
    requires
        overview_defined(t, me),
    ensures
        ({
            let l = overview_line(t, i, current, me);
            let ps = texts(t.participants@);
            &&& ps.len() == 1 ==> l.len() == 3 && l[2] == plain(" with just yourself"@)
            &&& ps.len() == 2 ==> l.len() == 4 && l[2] == plain(" with "@) && l[3].1 == Style::Name
                && ps.contains(l[3].0)
            &&& ps.len() > 2 ==> l.len() == 7 && l[2] == plain(
                " with "@ + decimal(ps.len()) + " people including "@,
            ) && l[3].1 == Style::Name && ps.contains(l[3].0) && l[4] == plain(", "@) && l[5].1
                == Style::Name && ps.contains(l[5].0) && l[6] == plain(" "@)
        }),
{
    let ps = texts(t.participants@);
    assert(ps.len() == t.participants@.len());
    if ps.len() != 1 {
        assert(ps.contains(me));
        let j = choose|j: int| 0 <= j < ps.len() && ps[j] == me;
        lemma_first_index_found(ps, me, 0);
        let idx = first_index(ps, me, 0);
        let o = others(ps, me);
        assert(o.len() == ps.len() - 1);
        if idx == 0 {
            assert(o[0] == ps[1]);
        } else {
            assert(o[0] == ps[0]);
        }
        if ps.len() > 2 {
            if idx <= 1 {
                assert(o[1] == ps[2]);
            } else {
                assert(o[1] == ps[1]);
            }
        }
    }
}

/// The leaderboard lists exactly the participants who sent messages, each
/// once, with the number of messages they sent, the most first.
pub proof fn law_leaderboard_entries(r: Seq<(Seq<char>, nat)>, t: Thread)
    requires
        ranks(
            r,
            active_senders(texts(t.participants@), t.conversation@, t.participants@.len() as int),
        ),
    ensures
        forall|i: int|
            0 <= i < r.len() ==> #[trigger] r[i].1 == sent_count(t.conversation@, r[i].0)
                && r[i].1 > 0 && texts(t.participants@).contains(r[i].0),
        forall|p: Seq<char>|
            texts(t.participants@).contains(p) && sent_count(t.conversation@, p) > 0
                ==> #[trigger] entry_names(r).contains(p),
        entry_names(r).no_duplicates(),
        forall|i: int, j: int| 0 <= i < j < r.len() ==> r[i].1 >= r[j].1,
{
    let ps = texts(t.participants@);
    let conv = t.conversation@;
    let d = active_senders(ps, conv, ps.len() as int);
    lemma_active_counts(ps, conv, ps.len() as int);
    assert(ps.take(ps.len() as int) =~= ps);
    assert forall|i: int| 0 <= i < r.len() implies #[trigger] r[i].1 == sent_count(conv, r[i].0)
        && r[i].1 > 0 && ps.contains(r[i].0) by {
        assert(r.to_set().contains(r[i]));
        assert(d.to_set().contains(r[i]));
        let a = choose|a: int| 0 <= a < d.len() && d[a] == r[i];
    }
    assert forall|p: Seq<char>| ps.contains(p) && sent_count(conv, p) > 0 implies #[trigger] entry_names(
        r,
    ).contains(p) by {
        lemma_active_senders_complete(ps, conv, ps.len() as int, p);
        let a = choose|a: int| 0 <= a < entry_names(d).len() && entry_names(d)[a] == p;
        assert(d.to_set().contains(d[a]));
        assert(r.to_set().contains(d[a]));
        let i = choose|i: int| 0 <= i < r.len() && r[i] == d[a];
        assert(entry_names(r)[i] == p);
    }
    let names = entry_names(r);
    assert forall|i: int, j: int| 0 <= i < names.len() && 0 <= j < names.len() && i != j implies names[i] != names[j] by {
        if names[i] == names[j] {
            assert(r[i].1 == sent_count(conv, r[i].0));
            assert(r[j].1 == sent_count(conv, r[j].0));
            assert(r[i] == r[j]);
        }
    }
}

} // verus!
