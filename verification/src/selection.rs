//! What the summaries of sessions and the selectors promise.
use vstd::prelude::*;

use crate::count::{how_many, lemma_how_many};
use crate::event::{EventKind, EventV, Source};
use crate::liveness::DEFAULT_LIVE_WINDOW_MS;
use crate::num::{is_numeral, numeral_value};
use crate::order::{sorted_by, sorted_by_sorts, text_lt, text_lt_is_an_order, text_lt_total};
use crate::selector::{
    all_where, belongs, belongs_to, by_recency, count_kind, cwd_has, first_where, ids_of,
    ids_with_prefix, last_hook_kind, live_by_recency, more_recent, recency_is_an_order, resolved,
    summary_of, without_ats, ResolutionV, SelectorErrorV, SummaryV,
};
use crate::text::{begins, has_text, lemma_text_inside};

verus! {

// ---------------------------------------------------------------------------
// Summaries
// ---------------------------------------------------------------------------

/// Whether the last event from the hooks is of a kind: one is, and only events of the
/// transcript stand behind it.
pub open spec fn hooks_ended_with(events: Seq<EventV>, kind: EventKind) -> bool {
    exists|k: int|
        0 <= k < events.len() && (#[trigger] events[k]).source == Source::Hooks && events[k].kind
            == kind && only_transcript_behind(events, k)
}

/// Whether only events of the transcript stand behind the one at `k`.
pub open spec fn only_transcript_behind(events: Seq<EventV>, k: int) -> bool {
    forall|j: int| k < j < events.len() ==> (#[trigger] events[j]).source == Source::Transcript
}

proof fn lemma_hooks_ended_with(events: Seq<EventV>, kind: EventKind)
    ensures
        last_hook_kind(events) == Some(kind) <==> hooks_ended_with(events, kind),
    decreases events.len(),
{
    if events.len() > 0 {
        let n = events.len() - 1;
        let t = events.drop_last();
        lemma_hooks_ended_with(t, kind);
        if events.last().source == Source::Hooks {
            if events.last().kind == kind {
                assert(events[n].source == Source::Hooks && only_transcript_behind(events, n));
            }
            if hooks_ended_with(events, kind) {
                let k = choose|k: int|
                    0 <= k < events.len() && (#[trigger] events[k]).source == Source::Hooks
                        && events[k].kind == kind && only_transcript_behind(events, k);
                if k < n {
                    assert(events[n].source == Source::Transcript);
                }
            }
        } else {
            if hooks_ended_with(t, kind) {
                let k = choose|k: int|
                    0 <= k < t.len() && (#[trigger] t[k]).source == Source::Hooks && t[k].kind
                        == kind && only_transcript_behind(t, k);
                assert forall|j: int| k < j < events.len() implies (#[trigger] events[j]).source
                    == Source::Transcript by {
                    if j < n {
                        assert(t[j] == events[j]);
                    }
                }
                assert(events[k] == t[k]);
                assert(only_transcript_behind(events, k));
            }
            if hooks_ended_with(events, kind) {
                let k = choose|k: int|
                    0 <= k < events.len() && (#[trigger] events[k]).source == Source::Hooks
                        && events[k].kind == kind && only_transcript_behind(events, k);
                assert(k < n);
                assert(t[k] == events[k]);
                assert forall|j: int| k < j < t.len() implies (#[trigger] t[j]).source
                    == Source::Transcript by {
                    assert(t[j] == events[j]);
                }
                assert(only_transcript_behind(t, k));
            }
        }
    }
}

proof fn lemma_count_kind(events: Seq<EventV>, kind: EventKind)
    ensures
        count_kind(events, kind) == how_many(events, |e: EventV| e.kind == kind),
    decreases events.len(),
{
    lemma_how_many(events, |e: EventV| e.kind == kind);
    if events.len() > 0 {
        lemma_count_kind(events.drop_last(), kind);
    }
}

/// A summary tells the number of the events and of the tool calls among them, the times of
/// the first and the last, whether one of them is a start, and what the last one from the
/// hooks ended. What the transcript adds behind that ends nothing and begins nothing.
pub proof fn summaries_tell_of_the_events(
    id: Seq<char>,
    created_ts: Option<i64>,
    events: Seq<EventV>,
)
    ensures
        summary_of(id, created_ts, events).id == id,
        summary_of(id, created_ts, events).created_ts == created_ts,
        summary_of(id, created_ts, events).event_count == events.len(),
        summary_of(id, created_ts, events).tool_calls == how_many(
            events,
            |e: EventV| e.kind == EventKind::ToolCall,
        ),
        summary_of(id, created_ts, events).has_start <==> exists|i: int|
            0 <= i < events.len() && (#[trigger] events[i]).kind == EventKind::SessionStart,
        summary_of(id, created_ts, events).last_is_stop <==> hooks_ended_with(
            events,
            EventKind::Stop,
        ),
        summary_of(id, created_ts, events).last_is_session_end <==> hooks_ended_with(
            events,
            EventKind::SessionEnd,
        ),
        events.len() == 0 ==> summary_of(id, created_ts, events).first_event_ts is None
            && summary_of(id, created_ts, events).last_event_ts is None,
        events.len() > 0 ==> summary_of(id, created_ts, events).first_event_ts == Some(events[0].ts)
            && summary_of(id, created_ts, events).last_event_ts == Some(
            events[events.len() - 1].ts,
        ),
        created_ts is Some ==> summary_of(id, created_ts, events).started() == created_ts,
        created_ts is None && events.len() > 0 ==> summary_of(id, created_ts, events).started()
            == Some(events[0].ts),
        created_ts is None && events.len() == 0 ==> summary_of(id, created_ts, events).started()
            is None,
        summary_of(id, created_ts, events).recency() == (if events.len() > 0 {
            events[events.len() - 1].ts
        } else {
            match created_ts {
                Some(t) => t,
                None => 0,
            }
        }),
{
    lemma_count_kind(events, EventKind::ToolCall);
    lemma_count_kind(events, EventKind::SessionStart);
    lemma_hooks_ended_with(events, EventKind::Stop);
    lemma_hooks_ended_with(events, EventKind::SessionEnd);
    let p = |e: EventV| e.kind == EventKind::SessionStart;
    crate::count::lemma_how_many_some(events, p);
    if how_many(events, p) > 0 {
        let i = choose|i: int| 0 <= i < events.len() && p(#[trigger] events[i]);
        assert(events[i].kind == EventKind::SessionStart);
    }
    if exists|i: int| 0 <= i < events.len() && (#[trigger] events[i]).kind
        == EventKind::SessionStart {
        let i = choose|i: int|
            0 <= i < events.len() && (#[trigger] events[i]).kind == EventKind::SessionStart;
        assert(p(events[i]));
    }
}

/// A session is live exactly if it has an event, the last one no longer ago than the
/// window, and the hooks ended neither a turn nor the session with their last event.
/// Whether its start was observed is no matter.
pub proof fn sessions_live_by_their_last_event(
    id: Seq<char>,
    created_ts: Option<i64>,
    events: Seq<EventV>,
    now_ms: i64,
    window_ms: i64,
)
    requires
        window_ms < i64::MAX,
    ensures
        summary_of(id, created_ts, events).live_within(now_ms, window_ms) <==> events.len() > 0
            && now_ms - events[events.len() - 1].ts <= window_ms && !hooks_ended_with(
            events,
            EventKind::Stop,
        ) && !hooks_ended_with(events, EventKind::SessionEnd),
{
    lemma_hooks_ended_with(events, EventKind::Stop);
    lemma_hooks_ended_with(events, EventKind::SessionEnd);
}

// ---------------------------------------------------------------------------
// Recency
// ---------------------------------------------------------------------------

/// Whether a session is later than another: its last event is, or the one with the smaller
/// id where both are of one time.
pub open spec fn is_later(a: SummaryV, b: SummaryV) -> bool {
    a.recency() > b.recency() || (a.recency() == b.recency() && text_lt(a.id, b.id))
}

/// Whether no two sessions share an id.
pub open spec fn ids_differ(ss: Seq<SummaryV>) -> bool {
    forall|i: int, j: int| 0 <= i < j < ss.len() ==> (#[trigger] ss[i]).id != (#[trigger] ss[j]).id
}

proof fn lemma_ranks(ss: Seq<SummaryV>)
    requires
        ids_differ(ss),
    ensures
        by_recency(ss).len() == ss.len(),
        forall|x: SummaryV| #[trigger] by_recency(ss).contains(x) <==> ss.contains(x),
        forall|i: int, j: int|
            0 <= i < j < ss.len() ==> is_later(
                #[trigger] by_recency(ss)[i],
                #[trigger] by_recency(ss)[j],
            ),
{
    broadcast use vstd::seq_lib::group_to_multiset_ensures;

    recency_is_an_order();
    let lt = |a: SummaryV, b: SummaryV| more_recent(a, b);
    sorted_by_sorts(ss, lt);
    let o = by_recency(ss);
    assert forall|x: SummaryV| #[trigger] o.contains(x) <==> ss.contains(x) by {
        assert(o.contains(x) <==> o.to_multiset().count(x) > 0);
        assert(ss.contains(x) <==> ss.to_multiset().count(x) > 0);
    }
    assert(ss.no_duplicates()) by {
        assert forall|i: int, j: int| 0 <= i < ss.len() && 0 <= j < ss.len() && i != j implies ss[i]
            != ss[j] by {
            if i < j {
                assert(ss[i].id != ss[j].id);
            } else {
                assert(ss[j].id != ss[i].id);
            }
        }
    }
    lemma_no_copies(ss, o);
    assert forall|i: int, j: int| 0 <= i < j < ss.len() implies is_later(
        #[trigger] o[i],
        #[trigger] o[j],
    ) by {
        assert(!lt(o[j], o[i]));
        assert(o[i] != o[j]);
        assert(ss.contains(o[i]) && ss.contains(o[j])) by {
            assert(o.contains(o[i]) && o.contains(o[j]));
        }
        let a = ss.index_of(o[i]);
        let b = ss.index_of(o[j]);
        if a < b {
            assert(ss[a].id != ss[b].id);
        } else {
            assert(ss[b].id != ss[a].id);
        }
        text_lt_total(o[i].id, o[j].id);
    }
}

proof fn lemma_no_copies(ss: Seq<SummaryV>, o: Seq<SummaryV>)
    requires
        ss.no_duplicates(),
        o.to_multiset() =~= ss.to_multiset(),
    ensures
        o.no_duplicates(),
{
    broadcast use vstd::seq_lib::group_to_multiset_ensures;

    ss.lemma_multiset_has_no_duplicates();
    assert forall|x: SummaryV| o.to_multiset().contains(x) implies #[trigger] o.to_multiset().count(
        x,
    ) == 1 by {
        assert(ss.to_multiset().contains(x));
        assert(ss.to_multiset().count(x) == 1);
    }
    o.lemma_multiset_has_no_duplicates_conv();
}

/// Whether a session is the latest of those with a property: it has it, and no other with
/// it is later.
pub open spec fn is_latest(ss: Seq<SummaryV>, p: spec_fn(SummaryV) -> bool, s: SummaryV) -> bool {
    &&& ss.contains(s)
    &&& p(s)
    &&& forall|i: int| 0 <= i < ss.len() && p(#[trigger] ss[i]) ==> !is_later(ss[i], s)
}

proof fn lemma_latest(ss: Seq<SummaryV>, p: spec_fn(SummaryV) -> bool)
    requires
        ids_differ(ss),
    ensures
        match first_where(by_recency(ss), p) {
            Some(s) => is_latest(ss, p, s),
            None => forall|i: int| 0 <= i < ss.len() ==> !p(#[trigger] ss[i]),
        },
{
    lemma_ranks(ss);
    let o = by_recency(ss);
    lemma_first_found(o, p);
    match first_where(o, p) {
        Some(s) => {
            let k = choose|k: int|
                0 <= k < o.len() && #[trigger] o[k] == s && p(s) && forall|j: int|
                    0 <= j < k ==> !p(#[trigger] o[j]);
            assert(o.contains(s));
            assert forall|i: int| 0 <= i < ss.len() && p(#[trigger] ss[i]) implies !is_later(
                ss[i],
                s,
            ) by {
                assert(ss.contains(ss[i]));
                assert(o.contains(ss[i]));
                let j = o.index_of(ss[i]);
                if j < k {
                    assert(!p(o[j]));
                }
                text_lt_total(s.id, ss[i].id);
                if k < j {
                    assert(is_later(o[k], o[j]));
                }
            }
        },
        None => {
            assert forall|i: int| 0 <= i < ss.len() implies !p(#[trigger] ss[i]) by {
                assert(ss.contains(ss[i]));
                assert(o.contains(ss[i]));
                let j = o.index_of(ss[i]);
                assert(!p(o[j]));
            }
        },
    }
}

proof fn lemma_first_found<A>(s: Seq<A>, p: spec_fn(A) -> bool)
    ensures
        match first_where(s, p) {
            Some(x) => exists|k: int|
                0 <= k < s.len() && #[trigger] s[k] == x && p(x) && forall|j: int|
                    0 <= j < k ==> !p(#[trigger] s[j]),
            None => forall|i: int| 0 <= i < s.len() ==> !p(#[trigger] s[i]),
        },
    decreases s.len(),
{
    if s.len() > 0 {
        if p(s[0]) {
            assert(s[0] == first_where(s, p)->0);
        } else {
            let t = s.skip(1);
            lemma_first_found(t, p);
            match first_where(t, p) {
                Some(x) => {
                    let k = choose|k: int|
                        0 <= k < t.len() && #[trigger] t[k] == x && p(x) && forall|j: int|
                            0 <= j < k ==> !p(#[trigger] t[j]);
                    assert(s[k + 1] == x);
                    assert forall|j: int| 0 <= j < k + 1 implies !p(#[trigger] s[j]) by {
                        if j > 0 {
                            assert(t[j - 1] == s[j]);
                        }
                    }
                },
                None => {
                    assert forall|i: int| 0 <= i < s.len() implies !p(#[trigger] s[i]) by {
                        if i > 0 {
                            assert(t[i - 1] == s[i]);
                        }
                    }
                },
            }
        }
    }
}

// ---------------------------------------------------------------------------
// Selectors
// ---------------------------------------------------------------------------

/// Whether a directory is another, or lies within it.
pub open spec fn is_within(inner: Seq<char>, outer: Seq<char>) -> bool {
    ||| inner == outer
    ||| outer == "/"@ && inner.len() > 0 && inner[0] == '/'
    ||| exists|rest: Seq<char>| inner == #[trigger] (outer + "/"@ + rest)
}

/// Directories belong together exactly if one lies within the other.
pub proof fn directories_belong_by_nesting(a: Seq<char>, b: Seq<char>)
    ensures
        belongs(a, b) <==> is_within(a, b) || is_within(b, a),
{
    lemma_within(a, b);
    lemma_within(b, a);
}

proof fn lemma_within(inner: Seq<char>, outer: Seq<char>)
    ensures
        is_within(inner, outer) <==> inner == outer || crate::selector::nested(inner, outer),
{
    reveal_strlit("/");
    assert("/"@ =~= seq!['/']);
    let n = outer.len() as int;
    if exists|rest: Seq<char>| inner == #[trigger] (outer + "/"@ + rest) {
        let rest = choose|rest: Seq<char>| inner == #[trigger] (outer + "/"@ + rest);
        assert(inner.subrange(0, n) =~= outer);
        assert(inner[n] == '/');
    }
    if begins(inner, outer) && inner.len() > n && inner[n] == '/' {
        let rest = inner.skip(n + 1);
        let whole = outer + "/"@ + rest;
        assert forall|i: int| 0 <= i < inner.len() implies inner[i] == whole[i] by {
            if i < n {
                assert(inner.subrange(0, n)[i] == inner[i]);
            }
        }
        assert(inner =~= whole);
    }
    if outer == "/"@ && inner.len() == 1 && inner[0] == '/' {
        assert(inner =~= outer);
    }
}

/// Whether one of the directories of a session and the current one lie one within the
/// other.
pub open spec fn is_of_directory(s: SummaryV, cwd: Seq<char>) -> bool {
    exists|i: int|
        0 <= i < s.cwds.len() && (is_within(#[trigger] s.cwds[i], cwd) || is_within(
            cwd,
            s.cwds[i],
        ))
}

proof fn lemma_of_directory(s: SummaryV, cwd: Seq<char>)
    ensures
        belongs_to(s, cwd) <==> is_of_directory(s, cwd),
{
    if belongs_to(s, cwd) {
        let i = choose|i: int| 0 <= i < s.cwds.len() && belongs(cwd, #[trigger] s.cwds[i]);
        directories_belong_by_nesting(cwd, s.cwds[i]);
        assert(is_within(s.cwds[i], cwd) || is_within(cwd, s.cwds[i]));
    }
    if is_of_directory(s, cwd) {
        let i = choose|i: int|
            0 <= i < s.cwds.len() && (is_within(#[trigger] s.cwds[i], cwd) || is_within(
                cwd,
                s.cwds[i],
            ));
        directories_belong_by_nesting(cwd, s.cwds[i]);
        assert(belongs(cwd, s.cwds[i]));
    }
}

/// Without a selector, the latest session of the current directory is named; where there is
/// none, the latest of all, and that is told.
pub proof fn no_selector_names_the_latest_of_the_directory(
    ss: Seq<SummaryV>,
    cwd: Seq<char>,
    now_ms: i64,
    s: SummaryV,
)
    requires
        ss.len() > 0,
        ids_differ(ss),
    ensures
        is_latest(ss, |x: SummaryV| is_of_directory(x, cwd), s) ==> resolved(ss, None, cwd, now_ms)
            == Ok::<ResolutionV, SelectorErrorV>(
            ResolutionV { session_id: s.id, cwd_fallback: false },
        ),
        (forall|i: int| 0 <= i < ss.len() ==> !is_of_directory(#[trigger] ss[i], cwd))
            && is_latest(ss, |x: SummaryV| true, s) ==> resolved(ss, None, cwd, now_ms) == Ok::<
            ResolutionV,
            SelectorErrorV,
        >(ResolutionV { session_id: s.id, cwd_fallback: true }),
{
    let p = |x: SummaryV| belongs_to(x, cwd);
    let q = |x: SummaryV| is_of_directory(x, cwd);
    let all = |x: SummaryV| true;
    lemma_latest(ss, p);
    lemma_ranks(ss);
    let o = by_recency(ss);
    match first_where(o, p) {
        Some(x) => {
            lemma_of_directory(x, cwd);
            if is_latest(ss, q, s) {
                lemma_of_directory(s, cwd);
                lemma_latest_is_one(ss, p, x, s);
            }
            let i = ss.index_of(x);
            assert(is_of_directory(ss[i], cwd));
        },
        None => {
            if is_latest(ss, q, s) {
                lemma_of_directory(s, cwd);
                let i = ss.index_of(s);
                assert(p(ss[i]));
            }
            if is_latest(ss, all, s) {
                lemma_first_is_latest(ss);
                lemma_latest_is_one(ss, all, o[0], s);
            }
        },
    }
}

proof fn lemma_first_is_latest(ss: Seq<SummaryV>)
    requires
        ss.len() > 0,
        ids_differ(ss),
    ensures
        is_latest(ss, |x: SummaryV| true, by_recency(ss)[0]),
{
    let all = |x: SummaryV| true;
    lemma_ranks(ss);
    let o = by_recency(ss);
    assert(o.contains(o[0]));
    assert forall|i: int| 0 <= i < ss.len() && all(#[trigger] ss[i]) implies !is_later(
        ss[i],
        o[0],
    ) by {
        assert(ss.contains(ss[i]));
        assert(o.contains(ss[i]));
        let j = o.index_of(ss[i]);
        text_lt_total(o[0].id, ss[i].id);
        if j > 0 {
            assert(is_later(o[0], o[j]));
        }
    }
}

/// Two sessions that are the latest with a property are one.
proof fn lemma_latest_is_one(
    ss: Seq<SummaryV>,
    p: spec_fn(SummaryV) -> bool,
    a: SummaryV,
    b: SummaryV,
)
    requires
        is_latest(ss, p, a),
        ss.contains(b),
        p(b),
        !is_later(a, b),
    ensures
        a.id == b.id,
{
    let j = ss.index_of(b);
    assert(p(ss[j]));
    assert(!is_later(ss[j], a));
    text_lt_total(a.id, b.id);
}

/// `@last` names the latest session.
pub proof fn last_names_the_latest(ss: Seq<SummaryV>, cwd: Seq<char>, now_ms: i64, s: SummaryV)
    requires
        ss.len() > 0,
        ids_differ(ss),
        is_latest(ss, |x: SummaryV| true, s),
    ensures
        resolved(ss, Some("@last"@), cwd, now_ms) == Ok::<ResolutionV, SelectorErrorV>(
            ResolutionV { session_id: s.id, cwd_fallback: false },
        ),
{
    reveal_strlit("@last");
    reveal_strlit("@");
    assert("@last"@.subrange(0, 1) =~= "@"@);
    lemma_ranks(ss);
    lemma_first_is_latest(ss);
    let o = by_recency(ss);
    assert(o.contains(o[0]));
    let i = ss.index_of(o[0]);
    assert(!is_later(ss[i], s));
    lemma_latest_is_one(ss, |x: SummaryV| true, o[0], s);
}

proof fn lemma_at_number(number: Seq<char>)
    requires
        is_numeral(number),
    ensures
        begins("@"@ + number, "@"@),
        "@"@ + number != "@last"@,
        !begins("@"@ + number, "@project:"@),
        !begins("@"@ + number, "@live:"@),
        without_ats("@"@ + number) == number,
{
    reveal_strlit("@last");
    reveal_strlit("@");
    reveal_strlit("@project:");
    reveal_strlit("@live:");
    let s = "@"@ + number;
    assert(s.subrange(0, 1) =~= "@"@);
    assert(s[0] == '@' && s[1] == number[0]);
    assert(crate::num::is_digit(number[0]));
    assert("@last"@[1] == 'l');
    if begins(s, "@project:"@) {
        assert(s.subrange(0, 9)[1] == s[1]);
        assert("@project:"@[1] == 'p');
    }
    if begins(s, "@live:"@) {
        assert(s.subrange(0, 6)[1] == s[1]);
        assert("@live:"@[1] == 'l');
    }
    assert(s.skip(1) =~= number);
    assert(without_ats(number) == number);
}

/// What a number names: the session that a selector of it names.
pub open spec fn names(r: Result<ResolutionV, SelectorErrorV>, s: SummaryV) -> bool {
    r == Ok::<ResolutionV, SelectorErrorV>(ResolutionV { session_id: s.id, cwd_fallback: false })
}

/// The sessions are numbered by recency: every number from one to that of the sessions
/// names one, a smaller number a later session, and a greater number than there are
/// sessions is told to be out of range.
pub proof fn numbers_go_by_recency(
    ss: Seq<SummaryV>,
    cwd: Seq<char>,
    now_ms: i64,
    a: Seq<char>,
    b: Seq<char>,
)
    requires
        ss.len() > 0,
        ids_differ(ss),
        is_numeral(a),
        is_numeral(b),
        1 <= numeral_value(a) < numeral_value(b) <= usize::MAX,
    ensures
        numeral_value(b) <= ss.len() ==> exists|x: SummaryV, y: SummaryV|
            ss.contains(x) && ss.contains(y) && is_later(x, y) && #[trigger] names(
                resolved(ss, Some("@"@ + a), cwd, now_ms),
                x,
            ) && #[trigger] names(resolved(ss, Some("@"@ + b), cwd, now_ms), y),
        numeral_value(b) > ss.len() ==> resolved(ss, Some("@"@ + b), cwd, now_ms) == Err::<
            ResolutionV,
            SelectorErrorV,
        >(SelectorErrorV::OutOfRange { selector: "@"@ + b, available: ss.len() as int }),
{
    lemma_at_number(a);
    lemma_at_number(b);
    lemma_ranks(ss);
    let o = by_recency(ss);
    if numeral_value(b) <= ss.len() {
        let x = o[numeral_value(a) - 1];
        let y = o[numeral_value(b) - 1];
        assert(o.contains(x) && o.contains(y));
        assert(names(resolved(ss, Some("@"@ + a), cwd, now_ms), x));
        assert(names(resolved(ss, Some("@"@ + b), cwd, now_ms), y));
    }
}

/// Zero numbers no session.
pub proof fn zero_is_no_number(ss: Seq<SummaryV>, cwd: Seq<char>, now_ms: i64, a: Seq<char>)
    requires
        ss.len() > 0,
        is_numeral(a),
        numeral_value(a) == 0,
    ensures
        resolved(ss, Some("@"@ + a), cwd, now_ms) == Err::<ResolutionV, SelectorErrorV>(
            SelectorErrorV::InvalidSelector("@"@ + a),
        ),
{
    lemma_at_number(a);
}

/// Whether one of the directories of a session has a text in it.
pub open spec fn is_of_project(s: SummaryV, sub: Seq<char>) -> bool {
    exists|i: int, a: Seq<char>, b: Seq<char>|
        0 <= i < s.cwds.len() && #[trigger] s.cwds[i] == #[trigger] (a + sub + b)
}

proof fn lemma_of_project(s: SummaryV, sub: Seq<char>)
    ensures
        cwd_has(s, sub) <==> is_of_project(s, sub),
{
    if cwd_has(s, sub) {
        let i = choose|i: int| 0 <= i < s.cwds.len() && has_text(#[trigger] s.cwds[i], sub);
        let c = s.cwds[i];
        let k = choose|k: int| crate::text::occurs_at(c, sub, k);
        assert(c =~= c.take(k) + c.subrange(k, k + sub.len()) + c.skip(k + sub.len()));
        assert(c == c.take(k) + sub + c.skip(k + sub.len()));
    }
    if is_of_project(s, sub) {
        let (i, a, b) = choose|i: int, a: Seq<char>, b: Seq<char>|
            0 <= i < s.cwds.len() && #[trigger] s.cwds[i] == #[trigger] (a + sub + b);
        lemma_text_inside(a, sub, b);
        assert(has_text(s.cwds[i], sub));
    }
}

/// `@project:` and a text name the latest session with a directory that has the text in
/// it, and none where there is no such session. No text is no selector.
pub proof fn projects_name_their_latest(
    ss: Seq<SummaryV>,
    cwd: Seq<char>,
    now_ms: i64,
    sub: Seq<char>,
    s: SummaryV,
)
    requires
        ss.len() > 0,
        ids_differ(ss),
    ensures
        sub.len() > 0 && is_latest(ss, |x: SummaryV| is_of_project(x, sub), s) ==> names(
            resolved(ss, Some("@project:"@ + sub), cwd, now_ms),
            s,
        ),
        sub.len() > 0 && (forall|i: int|
            0 <= i < ss.len() ==> !is_of_project(#[trigger] ss[i], sub)) ==> resolved(
            ss,
            Some("@project:"@ + sub),
            cwd,
            now_ms,
        ) == Err::<ResolutionV, SelectorErrorV>(
            SelectorErrorV::NoMatch { selector: "@project:"@ + sub },
        ),
        sub.len() == 0 ==> resolved(ss, Some("@project:"@ + sub), cwd, now_ms) == Err::<
            ResolutionV,
            SelectorErrorV,
        >(SelectorErrorV::InvalidSelector("@project:"@ + sub)),
{
    reveal_strlit("@last");
    reveal_strlit("@");
    reveal_strlit("@project:");
    let text = "@project:"@ + sub;
    assert(text.subrange(0, 1) =~= "@"@);
    assert(text[1] == 'p' && "@last"@[1] == 'l');
    assert(text.subrange(0, 9) =~= "@project:"@);
    assert(text.skip(9) =~= sub);
    let p = |x: SummaryV| cwd_has(x, sub);
    let q = |x: SummaryV| is_of_project(x, sub);
    lemma_latest(ss, p);
    match first_where(by_recency(ss), p) {
        Some(x) => {
            lemma_of_project(x, sub);
            let i = ss.index_of(x);
            assert(q(ss[i]));
            assert(is_of_project(ss[i], sub));
            if is_latest(ss, q, s) {
                lemma_of_project(s, sub);
                lemma_latest_is_one(ss, p, x, s);
            }
        },
        None => {
            if is_latest(ss, q, s) {
                lemma_of_project(s, sub);
                let i = ss.index_of(s);
                assert(p(ss[i]));
            }
        },
    }
}

/// Whether a session is live within the default window, of five minutes.
pub open spec fn is_running(s: SummaryV, now_ms: i64) -> bool {
    s.live_within(now_ms, 300_000)
}

proof fn lemma_alive(o: Seq<SummaryV>, p: spec_fn(SummaryV) -> bool)
    requires
        forall|i: int, j: int| 0 <= i < j < o.len() ==> is_later(#[trigger] o[i], #[trigger] o[j]),
    ensures
        forall|x: SummaryV| #[trigger]
            all_where(o, p).contains(x) <==> o.contains(x) && p(x),
        forall|i: int, j: int|
            0 <= i < j < all_where(o, p).len() ==> is_later(
                #[trigger] all_where(o, p)[i],
                #[trigger] all_where(o, p)[j],
            ),
        all_where(o, p).len() == how_many(o, p),
    decreases o.len(),
{
    lemma_how_many(o, p);
    if o.len() > 0 {
        let t = o.drop_last();
        assert forall|i: int, j: int| 0 <= i < j < t.len() implies is_later(
            #[trigger] t[i],
            #[trigger] t[j],
        ) by {
            assert(is_later(o[i], o[j]));
        }
        lemma_alive(t, p);
        let a = all_where(t, p);
        let b = all_where(o, p);
        assert forall|x: SummaryV| #[trigger] b.contains(x) <==> o.contains(x) && p(x) by {
            if o.contains(x) && p(x) {
                let i = o.index_of(x);
                if i < t.len() {
                    assert(t[i] == x);
                    assert(a.contains(x));
                    let k = a.index_of(x);
                    assert(b[k] == x);
                } else {
                    assert(b[a.len() as int] == x);
                }
            }
            if b.contains(x) {
                let k = b.index_of(x);
                if k < a.len() {
                    assert(a[k] == x);
                    assert(a.contains(x));
                    let i = t.index_of(x);
                    assert(o[i] == x);
                } else {
                    assert(o[o.len() - 1] == x);
                }
            }
        }
        assert forall|i: int, j: int| 0 <= i < j < b.len() implies is_later(
            #[trigger] b[i],
            #[trigger] b[j],
        ) by {
            if j < a.len() {
                assert(is_later(a[i], a[j]));
            } else {
                assert(b[i] == a[i]);
                assert(a.contains(a[i]));
                let k = t.index_of(a[i]);
                assert(is_later(o[k], o[o.len() - 1]));
            }
        }
    }
}

/// The live sessions are numbered by recency: `@live:` and a number name a live session, a
/// smaller number a later one, for as many numbers as there are live sessions. A greater
/// number is told to be out of range, and any number to match none where no session is
/// live.
pub proof fn live_numbers_go_by_recency(
    ss: Seq<SummaryV>,
    cwd: Seq<char>,
    now_ms: i64,
    a: Seq<char>,
    b: Seq<char>,
)
    requires
        ss.len() > 0,
        ids_differ(ss),
        is_numeral(a),
        is_numeral(b),
        1 <= numeral_value(a) < numeral_value(b) <= usize::MAX,
    ensures
        numeral_value(b) <= how_many(by_recency(ss), |x: SummaryV| is_running(x, now_ms))
            ==> exists|x: SummaryV, y: SummaryV|
            ss.contains(x) && ss.contains(y) && is_running(x, now_ms) && is_running(y, now_ms)
                && is_later(x, y) && #[trigger] names(
                resolved(ss, Some("@live:"@ + a), cwd, now_ms),
                x,
            ) && #[trigger] names(resolved(ss, Some("@live:"@ + b), cwd, now_ms), y),
        numeral_value(a) > how_many(by_recency(ss), |x: SummaryV| is_running(x, now_ms)) > 0
            ==> resolved(ss, Some("@live:"@ + a), cwd, now_ms) == Err::<
            ResolutionV,
            SelectorErrorV,
        >(
            SelectorErrorV::OutOfRange {
                selector: "@live:"@ + a,
                available: how_many(by_recency(ss), |x: SummaryV| is_running(x, now_ms)) as int,
            },
        ),
        (forall|i: int| 0 <= i < ss.len() ==> !is_running(#[trigger] ss[i], now_ms)) ==> resolved(
            ss,
            Some("@live:"@ + a),
            cwd,
            now_ms,
        ) == Err::<ResolutionV, SelectorErrorV>(
            SelectorErrorV::NoMatch { selector: "@live:"@ + a },
        ),
{
    lemma_at_live(a);
    lemma_at_live(b);
    lemma_ranks(ss);
    let o = by_recency(ss);
    let p = |x: SummaryV| x.live_within(now_ms, DEFAULT_LIVE_WINDOW_MS);
    let q = |x: SummaryV| is_running(x, now_ms);
    lemma_alive(o, p);
    crate::count::lemma_how_many_alike(o, p, q);
    let alive = live_by_recency(ss, now_ms);
    assert(alive == all_where(o, p));
    if numeral_value(b) <= alive.len() {
        let x = alive[numeral_value(a) - 1];
        let y = alive[numeral_value(b) - 1];
        assert(alive.contains(x) && alive.contains(y));
        assert(o.contains(x) && o.contains(y));
        assert(names(resolved(ss, Some("@live:"@ + a), cwd, now_ms), x));
        assert(names(resolved(ss, Some("@live:"@ + b), cwd, now_ms), y));
    }
    if alive.len() > 0 && forall|i: int|
        0 <= i < ss.len() ==> !is_running(#[trigger] ss[i], now_ms) {
        assert(alive.contains(alive[0]));
        assert(o.contains(alive[0]));
        let i = ss.index_of(alive[0]);
        assert(!is_running(ss[i], now_ms));
    }
}

/// `@live:1` names the latest live session.
pub proof fn the_first_live_one_is_the_latest(
    ss: Seq<SummaryV>,
    cwd: Seq<char>,
    now_ms: i64,
    a: Seq<char>,
    s: SummaryV,
)
    requires
        ss.len() > 0,
        ids_differ(ss),
        is_numeral(a),
        numeral_value(a) == 1,
        is_latest(ss, |x: SummaryV| is_running(x, now_ms), s),
    ensures
        names(resolved(ss, Some("@live:"@ + a), cwd, now_ms), s),
{
    lemma_at_live(a);
    lemma_ranks(ss);
    let o = by_recency(ss);
    let p = |x: SummaryV| x.live_within(now_ms, DEFAULT_LIVE_WINDOW_MS);
    lemma_alive(o, p);
    let alive = all_where(o, p);
    assert(o.contains(s));
    assert(alive.contains(s));
    let k = alive.index_of(s);
    let x = alive[0];
    assert(alive.contains(x));
    assert(o.contains(x));
    let i = ss.index_of(x);
    assert(is_running(ss[i], now_ms));
    if k > 0 {
        assert(is_later(alive[0], alive[k]));
    }
}

proof fn lemma_at_live(number: Seq<char>)
    ensures
        begins("@live:"@ + number, "@"@),
        "@live:"@ + number != "@last"@,
        !begins("@live:"@ + number, "@project:"@),
        begins("@live:"@ + number, "@live:"@),
        ("@live:"@ + number).skip("@live:"@.len() as int) == number,
{
    reveal_strlit("@last");
    reveal_strlit("@");
    reveal_strlit("@project:");
    reveal_strlit("@live:");
    let s = "@live:"@ + number;
    assert(s.subrange(0, 1) =~= "@"@);
    assert(s.subrange(0, 6) =~= "@live:"@);
    assert(s[1] == 'l' && s[2] == 'i' && "@last"@[2] == 'a');
    if begins(s, "@project:"@) {
        assert(s.subrange(0, 9)[1] == s[1]);
        assert("@project:"@[1] == 'p');
    }
    assert(s.skip(6) =~= number);
}

/// Whether an id begins with a text.
pub open spec fn id_begins(s: SummaryV, prefix: Seq<char>) -> bool {
    exists|rest: Seq<char>| s.id == #[trigger] (prefix + rest)
}

proof fn lemma_id_begins(s: SummaryV, prefix: Seq<char>)
    ensures
        id_begins(s, prefix) <==> begins(s.id, prefix),
{
    if id_begins(s, prefix) {
        let rest = choose|rest: Seq<char>| s.id == #[trigger] (prefix + rest);
        assert(s.id.subrange(0, prefix.len() as int) =~= prefix);
    }
    if begins(s.id, prefix) {
        assert(s.id =~= s.id.subrange(0, prefix.len() as int) + s.id.skip(prefix.len() as int));
        assert(s.id == prefix + s.id.skip(prefix.len() as int));
    }
}

proof fn lemma_candidates(ss: Seq<SummaryV>, prefix: Seq<char>)
    ensures
        forall|id: Seq<char>| #[trigger]
            ids_with_prefix(ss, prefix).contains(id) <==> exists|i: int|
                0 <= i < ss.len() && (#[trigger] ss[i]).id == id && id_begins(ss[i], prefix),
        ids_with_prefix(ss, prefix).len() == how_many(ss, |s: SummaryV| id_begins(s, prefix)),
    decreases ss.len(),
{
    lemma_how_many(ss, |s: SummaryV| id_begins(s, prefix));
    if ss.len() > 0 {
        let t = ss.drop_last();
        lemma_candidates(t, prefix);
        lemma_id_begins(ss.last(), prefix);
        let a = ids_with_prefix(t, prefix);
        let b = ids_with_prefix(ss, prefix);
        assert forall|id: Seq<char>| #[trigger] b.contains(id) <==> exists|i: int|
            0 <= i < ss.len() && (#[trigger] ss[i]).id == id && id_begins(ss[i], prefix) by {
            if exists|i: int|
                0 <= i < ss.len() && (#[trigger] ss[i]).id == id && id_begins(ss[i], prefix) {
                let i = choose|i: int|
                    0 <= i < ss.len() && (#[trigger] ss[i]).id == id && id_begins(ss[i], prefix);
                if i < t.len() {
                    assert(t[i].id == id && id_begins(t[i], prefix));
                    assert(a.contains(id));
                    let k = a.index_of(id);
                    assert(b[k] == id);
                } else {
                    assert(b[a.len() as int] == id);
                }
            }
            if b.contains(id) {
                let k = b.index_of(id);
                if k < a.len() {
                    assert(a[k] == id);
                    assert(a.contains(id));
                    let i = choose|i: int|
                        0 <= i < t.len() && (#[trigger] t[i]).id == id && id_begins(t[i], prefix);
                    assert(ss[i].id == id);
                } else {
                    assert(ss[ss.len() - 1].id == id);
                }
            }
        }
    }
}

/// An id names its session, however many others begin with it. Else a text names the one
/// session whose id begins with it; no such session is told, and so are several, with
/// their ids.
pub proof fn ids_are_named_by_their_beginning(
    ss: Seq<SummaryV>,
    cwd: Seq<char>,
    now_ms: i64,
    prefix: Seq<char>,
)
    requires
        ss.len() > 0,
        prefix.len() == 0 || prefix[0] != '@',
    ensures
        (exists|i: int| 0 <= i < ss.len() && (#[trigger] ss[i]).id == prefix) ==> resolved(
            ss,
            Some(prefix),
            cwd,
            now_ms,
        ) == Ok::<ResolutionV, SelectorErrorV>(
            ResolutionV { session_id: prefix, cwd_fallback: false },
        ),
        how_many(ss, |s: SummaryV| id_begins(s, prefix)) == 0 ==> resolved(
            ss,
            Some(prefix),
            cwd,
            now_ms,
        ) == Err::<ResolutionV, SelectorErrorV>(SelectorErrorV::NoMatch { selector: prefix }),
        how_many(ss, |s: SummaryV| id_begins(s, prefix)) == 1 ==> exists|i: int|
            0 <= i < ss.len() && id_begins(#[trigger] ss[i], prefix) && names(
                resolved(ss, Some(prefix), cwd, now_ms),
                ss[i],
            ),
        how_many(ss, |s: SummaryV| id_begins(s, prefix)) > 1 && !(exists|i: int|
            0 <= i < ss.len() && (#[trigger] ss[i]).id == prefix) ==> {
            &&& resolved(ss, Some(prefix), cwd, now_ms) matches Err(
                SelectorErrorV::AmbiguousPrefix { prefix: p, candidates },
            )
            &&& p == prefix
            &&& candidates.len() == how_many(ss, |s: SummaryV| id_begins(s, prefix))
            &&& forall|id: Seq<char>| #[trigger]
                candidates.contains(id) <==> exists|i: int|
                    0 <= i < ss.len() && (#[trigger] ss[i]).id == id && id_begins(ss[i], prefix)
            &&& forall|i: int, j: int|
                0 <= i < j < candidates.len() ==> !text_lt(
                    #[trigger] candidates[j],
                    #[trigger] candidates[i],
                )
        },
{
    broadcast use vstd::seq_lib::group_to_multiset_ensures;

    reveal_strlit("@");
    if begins(prefix, "@"@) {
        assert(prefix.subrange(0, 1)[0] == prefix[0]);
    }
    lemma_candidates(ss, prefix);
    let c = ids_with_prefix(ss, prefix);
    if exists|i: int| 0 <= i < ss.len() && (#[trigger] ss[i]).id == prefix {
        let i = choose|i: int| 0 <= i < ss.len() && (#[trigger] ss[i]).id == prefix;
        assert(ids_of(ss)[i] == prefix);
        assert(ss[i].id =~= prefix + Seq::<char>::empty());
        assert(id_begins(ss[i], prefix));
        assert(c.contains(prefix));
        if c.len() == 1 {
            assert(names(resolved(ss, Some(prefix), cwd, now_ms), ss[i]));
        }
    } else {
        if ids_of(ss).contains(prefix) {
            let i = ids_of(ss).index_of(prefix);
            assert(ss[i].id == prefix);
        }
        if c.len() == 1 {
            assert(c.contains(c[0]));
            let i = choose|i: int|
                0 <= i < ss.len() && (#[trigger] ss[i]).id == c[0] && id_begins(ss[i], prefix);
            assert(names(resolved(ss, Some(prefix), cwd, now_ms), ss[i]));
        }
        let lt = |a: Seq<char>, b: Seq<char>| text_lt(a, b);
        text_lt_is_an_order();
        sorted_by_sorts(c, lt);
        let o = sorted_by(c, lt);
        assert forall|id: Seq<char>| #[trigger] o.contains(id) <==> c.contains(id) by {
            assert(o.contains(id) <==> o.to_multiset().count(id) > 0);
            assert(c.contains(id) <==> c.to_multiset().count(id) > 0);
        }
        assert forall|i: int, j: int| 0 <= i < j < o.len() implies !text_lt(
            #[trigger] o[j],
            #[trigger] o[i],
        ) by {
            assert(!lt(o[j], o[i]));
        }
    }
}

/// More at signs ahead of a number are no matter to what it names.
pub proof fn more_at_signs_are_no_matter(
    ss: Seq<SummaryV>,
    cwd: Seq<char>,
    now_ms: i64,
    number: Seq<char>,
    s: SummaryV,
)
    requires
        is_numeral(number),
    ensures
        names(resolved(ss, Some("@"@ + number), cwd, now_ms), s) <==> names(
            resolved(ss, Some("@"@ + ("@"@ + number)), cwd, now_ms),
            s,
        ),
{
    lemma_at_number(number);
    reveal_strlit("@last");
    reveal_strlit("@");
    reveal_strlit("@project:");
    reveal_strlit("@live:");
    let one = "@"@ + number;
    let two = "@"@ + one;
    assert(two.subrange(0, 1) =~= "@"@);
    assert(two[0] == '@' && two[1] == '@');
    assert("@last"@[1] == 'l');
    if begins(two, "@project:"@) {
        assert(two.subrange(0, 9)[1] == two[1]);
        assert("@project:"@[1] == 'p');
    }
    if begins(two, "@live:"@) {
        assert(two.subrange(0, 6)[1] == two[1]);
        assert("@live:"@[1] == 'l');
    }
    assert(two.skip(1) =~= one);
    assert(without_ats(two) == without_ats(one));
}

/// What stands behind an at sign and is neither a number nor one of the known words is no
/// selector, and nothing is one where no session is recorded.
pub proof fn other_texts_behind_an_at_sign_are_no_selector(
    ss: Seq<SummaryV>,
    cwd: Seq<char>,
    now_ms: i64,
    text: Seq<char>,
)
    requires
        text.len() == 0 || text[0] != '@',
        !is_numeral(text),
        "@"@ + text != "@last"@,
        !begins("@"@ + text, "@project:"@),
        !begins("@"@ + text, "@live:"@),
    ensures
        ss.len() > 0 ==> resolved(ss, Some("@"@ + text), cwd, now_ms) == Err::<
            ResolutionV,
            SelectorErrorV,
        >(SelectorErrorV::InvalidSelector("@"@ + text)),
        ss.len() == 0 ==> resolved(ss, Some("@"@ + text), cwd, now_ms) == Err::<
            ResolutionV,
            SelectorErrorV,
        >(SelectorErrorV::NoSessions),
        ss.len() == 0 ==> resolved(ss, None, cwd, now_ms) == Err::<ResolutionV, SelectorErrorV>(
            SelectorErrorV::NoSessions,
        ),
{
    reveal_strlit("@");
    let s = "@"@ + text;
    assert(s.subrange(0, 1) =~= "@"@);
    assert(s[0] == '@');
    assert(s.skip(1) =~= text);
    assert(without_ats(text) == text);
    assert(without_ats(s) == text);
}

} // verus!
