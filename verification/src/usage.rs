//! Model and token usage of a session, summed over its transcript.
//!
//! One response is spread over several transcript lines, and each of them
//! repeats the whole usage. Usage is therefore counted once for each message
//! id. What cannot be attributed is counted, never summed.
use vstd::prelude::*;

use crate::event::{Attribution, SCHEMA_VERSION};
use crate::json::{Json, JsonV};
use crate::order::{text_less, text_lt, text_lt_total, text_lt_transitive};
use crate::outside::{parse, parsed};
use crate::split::{
    lemma_line_behind, lemma_lines_hold_no_feed, lemma_pieces_nonempty, lines,
    lines_of, pieces, strip_cr, without_returns, Cut,
};
use crate::text::{blank, is_blank, is_space, list_has, same, views};
use crate::transcript::ADAPTER_VERSION;

verus! {

/// Whether a transcript gave any usable usage.
#[derive(Debug, Clone, Copy, PartialEq, Eq, Structural)]
pub enum UsageSourceStatus {
    /// At least one message contributed usage.
    Okay,
    /// The transcript was read, but no message had usable usage.
    NoUsageParsed,
}

/// Token totals of one model.
#[derive(Debug, Clone, PartialEq, Eq)]
pub struct ModelUsage {
    /// The model that the totals were reported under.
    pub model: String,
    /// Messages counted for this model.
    pub messages: usize,
    /// Sum of the input tokens.
    pub input_tokens: u64,
    /// Sum of the output tokens.
    pub output_tokens: u64,
    /// Sum of the cache creation tokens.
    pub cache_creation_input_tokens: u64,
    /// Sum of the cache read tokens.
    pub cache_read_input_tokens: u64,
}

/// The four token counters of a usage object.
#[derive(Debug, Clone, Copy, PartialEq, Eq, Structural)]
pub struct TokenCounts {
    pub input_tokens: u64,
    pub output_tokens: u64,
    pub cache_creation_input_tokens: u64,
    pub cache_read_input_tokens: u64,
}

/// The contents of a [`ModelUsage`].
pub ghost struct ModelUsageV {
    pub model: Seq<char>,
    pub messages: int,
    pub tokens: TokenCounts,
}

impl View for ModelUsage {
    type V = ModelUsageV;

    open spec fn view(&self) -> ModelUsageV {
        ModelUsageV {
            model: self.model@,
            messages: self.messages as int,
            tokens: TokenCounts {
                input_tokens: self.input_tokens,
                output_tokens: self.output_tokens,
                cache_creation_input_tokens: self.cache_creation_input_tokens,
                cache_read_input_tokens: self.cache_read_input_tokens,
            },
        }
    }
}

/// The contents of a list of totals.
pub open spec fn usage_views(v: Seq<ModelUsage>) -> Seq<ModelUsageV> {
    Seq::new(v.len(), |i: int| v[i]@)
}

/// The sum of two numbers, or the greatest number where it would be greater.
pub open spec fn capped_sum(a: u64, b: u64) -> u64 {
    if a + b > u64::MAX {
        u64::MAX
    } else {
        (a + b) as u64
    }
}

/// Adds up, stopping at the greatest number.
pub fn capped_add(a: u64, b: u64) -> (r: u64)
    ensures
        r == capped_sum(a, b),
{
    if a > u64::MAX - b {
        u64::MAX
    } else {
        a + b
    }
}

/// The sums of the counters of two usages.
pub open spec fn counts_sum(a: TokenCounts, b: TokenCounts) -> TokenCounts {
    TokenCounts {
        input_tokens: capped_sum(a.input_tokens, b.input_tokens),
        output_tokens: capped_sum(a.output_tokens, b.output_tokens),
        cache_creation_input_tokens: capped_sum(
            a.cache_creation_input_tokens,
            b.cache_creation_input_tokens,
        ),
        cache_read_input_tokens: capped_sum(a.cache_read_input_tokens, b.cache_read_input_tokens),
    }
}

/// The value of a counter: none where it is there and no natural number of 64
/// bits, zero where it is absent.
pub open spec fn counter_of(usage: JsonV, field: Seq<char>) -> Option<u64> {
    match usage.get(field) {
        None => Some(0),
        Some(v) => match v.nat64() {
            Some(n) => Some(n as u64),
            None => None,
        },
    }
}

/// The counters of a usage object: none where it is no object, has no counter,
/// or has one that is no natural number.
pub open spec fn counts_of(usage: JsonV) -> Option<TokenCounts> {
    if usage is Object && (usage.get("input_tokens"@) is Some || usage.get("output_tokens"@) is Some
        || usage.get("cache_creation_input_tokens"@) is Some || usage.get(
        "cache_read_input_tokens"@,
    ) is Some) {
        match (
            counter_of(usage, "input_tokens"@),
            counter_of(usage, "output_tokens"@),
            counter_of(usage, "cache_creation_input_tokens"@),
            counter_of(usage, "cache_read_input_tokens"@),
        ) {
            (Some(a), Some(b), Some(c), Some(d)) => Some(
                TokenCounts {
                    input_tokens: a,
                    output_tokens: b,
                    cache_creation_input_tokens: c,
                    cache_read_input_tokens: d,
                },
            ),
            _ => None,
        }
    } else {
        None
    }
}

fn read_optional_u64(usage: &Json, field: &str) -> (r: Option<u64>)
    ensures
        r == counter_of(usage@, field@),
{
    match usage.get(field) {
        None => Some(0),
        Some(v) => v.as_u64(),
    }
}

/// Reads the four counters of a usage object.
pub fn read_token_counts(usage: &Json) -> (r: Option<TokenCounts>)
    ensures
        r == counts_of(usage@),
{
    if !usage.is_object() {
        return None;
    }
    let any = usage.get("input_tokens").is_some() || usage.get("output_tokens").is_some()
        || usage.get("cache_creation_input_tokens").is_some() || usage.get(
        "cache_read_input_tokens",
    ).is_some();
    if !any {
        return None;
    }
    match (
        read_optional_u64(usage, "input_tokens"),
        read_optional_u64(usage, "output_tokens"),
        read_optional_u64(usage, "cache_creation_input_tokens"),
        read_optional_u64(usage, "cache_read_input_tokens"),
    ) {
        (Some(a), Some(b), Some(c), Some(d)) => Some(
            TokenCounts {
                input_tokens: a,
                output_tokens: b,
                cache_creation_input_tokens: c,
                cache_read_input_tokens: d,
            },
        ),
        _ => None,
    }
}

/// The number of models from the beginning whose names stand before `model`.
pub open spec fn model_rank(ms: Seq<ModelUsageV>, model: Seq<char>) -> int
    decreases ms.len(),
{
    if ms.len() > 0 && text_lt(ms[0].model, model) {
        1 + model_rank(ms.skip(1), model)
    } else {
        0
    }
}

/// The totals with one more message of a model.
pub open spec fn with_message(
    ms: Seq<ModelUsageV>,
    model: Seq<char>,
    counts: TokenCounts,
) -> Seq<ModelUsageV> {
    let k = model_rank(ms, model);
    if k < ms.len() && ms[k].model == model {
        ms.update(
            k,
            ModelUsageV {
                model,
                messages: ms[k].messages + 1,
                tokens: counts_sum(ms[k].tokens, counts),
            },
        )
    } else {
        ms.insert(k, ModelUsageV { model, messages: 1, tokens: counts })
    }
}

/// The state of the count over the lines of a transcript.
pub ghost struct TallyV {
    /// The message ids seen so far.
    pub seen: Seq<Seq<char>>,
    pub per_model: Seq<ModelUsageV>,
    pub counted: int,
    pub missing_usage: int,
    pub missing_id: int,
    pub duplicates: int,
}

/// The count before any line.
pub open spec fn empty_tally() -> TallyV {
    TallyV {
        seen: Seq::<Seq<char>>::empty(),
        per_model: Seq::<ModelUsageV>::empty(),
        counted: 0,
        missing_usage: 0,
        missing_id: 0,
        duplicates: 0,
    }
}

/// A text, if it is there and not empty.
pub open spec fn some_text(t: Option<Seq<char>>) -> Option<Seq<char>> {
    match t {
        Some(s) => if s.len() > 0 {
            Some(s)
        } else {
            None
        },
        None => None,
    }
}

/// The message id that a line can be told by: none where there is no message
/// object, or no id in it.
pub open spec fn message_id(line: JsonV) -> Option<Seq<char>> {
    match line.get("message"@) {
        Some(message) => if message is Object {
            some_text(message.text_at("id"@))
        } else {
            None
        },
        None => None,
    }
}

/// The usage that a message reports, with the model that it is attributed to.
pub open spec fn reported_usage(message: JsonV) -> Option<(Seq<char>, TokenCounts)> {
    match (some_text(message.text_at("model"@)), message.get("usage"@)) {
        (Some(model), Some(usage)) => match counts_of(usage) {
            Some(counts) => Some((model, counts)),
            None => None,
        },
        _ => None,
    }
}

/// Whether a line is that of an assistant message.
pub open spec fn is_assistant(line: JsonV) -> bool {
    line is Object && line.text_at("type"@) == Some("assistant"@)
}

/// The count with one more line, which holds `line`.
pub open spec fn tally_line(t: TallyV, line: JsonV) -> TallyV {
    if !is_assistant(line) {
        t
    } else {
        match message_id(line) {
            None => TallyV { missing_id: t.missing_id + 1, ..t },
            Some(id) => if t.seen.contains(id) {
                TallyV { duplicates: t.duplicates + 1, ..t }
            } else {
                match reported_usage(line.get("message"@)->0) {
                    Some((model, counts)) => TallyV {
                        seen: t.seen.push(id),
                        per_model: with_message(t.per_model, model, counts),
                        counted: t.counted + 1,
                        ..t
                    },
                    None => TallyV {
                        seen: t.seen.push(id),
                        missing_usage: t.missing_usage + 1,
                        ..t
                    },
                }
            },
        }
    }
}

/// What a line of a transcript holds. Carriage returns at its end are no part of it.
pub open spec fn line_value(l: Seq<char>) -> Option<JsonV> {
    parsed(without_returns(l))
}

/// The count over the lines of a transcript; blank lines and lines that are no
/// JSON change nothing.
pub open spec fn tally_lines(all: Seq<Seq<char>>) -> TallyV
    decreases all.len(),
{
    if all.len() == 0 {
        empty_tally()
    } else {
        let before = tally_lines(all.drop_last());
        if is_blank(all.last()) {
            before
        } else {
            match line_value(all.last()) {
                Some(line) => tally_line(before, line),
                None => before,
            }
        }
    }
}

/// The count over the lines of a transcript.
#[derive(Debug)]
pub struct Tally {
    seen: Vec<String>,
    per_model: Vec<ModelUsage>,
    counted: usize,
    missing_usage: usize,
    missing_id: usize,
    duplicates: usize,
}

impl View for Tally {
    type V = TallyV;

    closed spec fn view(&self) -> TallyV {
        TallyV {
            seen: views(self.seen@),
            per_model: usage_views(self.per_model@),
            counted: self.counted as int,
            missing_usage: self.missing_usage as int,
            missing_id: self.missing_id as int,
            duplicates: self.duplicates as int,
        }
    }
}

impl TallyV {
    /// The number of assistant lines.
    pub open spec fn lines(self) -> int {
        self.counted + self.missing_usage + self.missing_id + self.duplicates
    }

    /// Whether the numbers fit together: no counter is negative, each id seen
    /// was counted or missed its usage, each message counted is one of a model,
    /// and the models stand in the order of their names.
    pub open spec fn fits(self) -> bool {
        &&& self.counted >= 0 && self.missing_usage >= 0 && self.missing_id >= 0 && self.duplicates
            >= 0
        &&& self.seen.len() == self.counted + self.missing_usage
        &&& messages_sum(self.per_model) == self.counted
        &&& models_ordered(self.per_model)
        &&& forall|i: int|
            0 <= i < self.per_model.len() ==> (#[trigger] self.per_model[i]).messages >= 1
    }
}

/// The number of messages of all models.
pub open spec fn messages_sum(ms: Seq<ModelUsageV>) -> int
    decreases ms.len(),
{
    if ms.len() == 0 {
        0
    } else {
        messages_sum(ms.drop_last()) + ms.last().messages
    }
}

/// Whether the models stand in the order of their names, each once.
pub open spec fn models_ordered(ms: Seq<ModelUsageV>) -> bool {
    forall|i: int, j: int|
        0 <= i < j < ms.len() ==> text_lt((#[trigger] ms[i]).model, (#[trigger] ms[j]).model)
}

proof fn lemma_model_rank(ms: Seq<ModelUsageV>, model: Seq<char>)
    ensures
        0 <= model_rank(ms, model) <= ms.len(),
        forall|j: int| 0 <= j < model_rank(ms, model) ==> text_lt((#[trigger] ms[j]).model, model),
        model_rank(ms, model) < ms.len() ==> !text_lt(ms[model_rank(ms, model)].model, model),
    decreases ms.len(),
{
    if ms.len() > 0 && text_lt(ms[0].model, model) {
        lemma_model_rank(ms.skip(1), model);
        let k = model_rank(ms, model);
        assert forall|j: int| 0 <= j < k implies text_lt((#[trigger] ms[j]).model, model) by {
            if j > 0 {
                assert(ms.skip(1)[j - 1] == ms[j]);
            }
        }
    }
}

proof fn lemma_model_rank_is(ms: Seq<ModelUsageV>, model: Seq<char>, k: int)
    requires
        0 <= k <= ms.len(),
        forall|j: int| 0 <= j < k ==> text_lt((#[trigger] ms[j]).model, model),
        k < ms.len() ==> !text_lt(ms[k].model, model),
    ensures
        model_rank(ms, model) == k,
{
    lemma_model_rank(ms, model);
    let r = model_rank(ms, model);
    if r < k {
        assert(text_lt(ms[r].model, model));
    } else if k < r {
        assert(text_lt(ms[k].model, model));
    }
}

proof fn lemma_sum_update(ms: Seq<ModelUsageV>, k: int, x: ModelUsageV)
    requires
        0 <= k < ms.len(),
    ensures
        messages_sum(ms.update(k, x)) == messages_sum(ms) - ms[k].messages + x.messages,
    decreases ms.len(),
{
    let u = ms.update(k, x);
    if k == ms.len() - 1 {
        assert(u.drop_last() =~= ms.drop_last());
    } else {
        lemma_sum_update(ms.drop_last(), k, x);
        assert(u.drop_last() =~= ms.drop_last().update(k, x));
    }
}

proof fn lemma_sum_insert(ms: Seq<ModelUsageV>, k: int, x: ModelUsageV)
    requires
        0 <= k <= ms.len(),
    ensures
        messages_sum(ms.insert(k, x)) == messages_sum(ms) + x.messages,
    decreases ms.len(),
{
    let u = ms.insert(k, x);
    if k == ms.len() {
        assert(u.drop_last() =~= ms);
    } else {
        lemma_sum_insert(ms.drop_last(), k, x);
        assert(u.drop_last() =~= ms.drop_last().insert(k, x));
        assert(u.last() == ms.last());
    }
}

proof fn lemma_sum_bound(ms: Seq<ModelUsageV>, k: int)
    requires
        0 <= k < ms.len(),
        forall|i: int| 0 <= i < ms.len() ==> (#[trigger] ms[i]).messages >= 1,
    ensures
        ms[k].messages <= messages_sum(ms),
        messages_sum(ms) >= ms.len(),
    decreases ms.len(),
{
    let t = ms.drop_last();
    if t.len() > 0 {
        assert forall|i: int| 0 <= i < t.len() implies (#[trigger] t[i]).messages >= 1 by {
            assert(t[i] == ms[i]);
        }
        if k < t.len() {
            lemma_sum_bound(t, k);
        } else {
            lemma_sum_bound(t, 0);
        }
        assert(ms[ms.len() - 1].messages >= 1);
    } else {
        assert(messages_sum(t) == 0);
    }
}

proof fn lemma_with_message(ms: Seq<ModelUsageV>, model: Seq<char>, counts: TokenCounts)
    requires
        models_ordered(ms),
        forall|i: int| 0 <= i < ms.len() ==> (#[trigger] ms[i]).messages >= 1,
    ensures
        models_ordered(with_message(ms, model, counts)),
        messages_sum(with_message(ms, model, counts)) == messages_sum(ms) + 1,
        forall|i: int|
            0 <= i < with_message(ms, model, counts).len() ==> (#[trigger] with_message(
                ms,
                model,
                counts,
            )[i]).messages >= 1,
{
    lemma_model_rank(ms, model);
    let k = model_rank(ms, model);
    let out = with_message(ms, model, counts);
    if k < ms.len() && ms[k].model == model {
        let x = ModelUsageV {
            model,
            messages: ms[k].messages + 1,
            tokens: counts_sum(ms[k].tokens, counts),
        };
        lemma_sum_update(ms, k, x);
    } else {
        let x = ModelUsageV { model, messages: 1, tokens: counts };
        lemma_sum_insert(ms, k, x);
        assert forall|i: int, j: int| 0 <= i < j < out.len() implies text_lt(
            (#[trigger] out[i]).model,
            (#[trigger] out[j]).model,
        ) by {
            if k < ms.len() {
                text_lt_total(ms[k].model, model);
            }
            if j == k {
            } else if i == k {
                if j - 1 > k {
                    text_lt_transitive(model, ms[k].model, ms[j - 1].model);
                }
            }
        }
    }
}

/// Taking up a line keeps the numbers together.
pub proof fn tally_line_fits(t: TallyV, line: JsonV)
    requires
        t.fits(),
    ensures
        tally_line(t, line).fits(),
        tally_line(t, line).lines() == t.lines() + (if is_assistant(line) {
            1int
        } else {
            0
        }),
{
    if is_assistant(line) && message_id(line) is Some && !t.seen.contains(message_id(line)->0) {
        match reported_usage(line.get("message"@)->0) {
            Some((model, counts)) => {
                lemma_with_message(t.per_model, model, counts);
            },
            None => {},
        }
    }
}

fn add_message(ms: &mut Vec<ModelUsage>, model: &str, counts: TokenCounts)
    requires
        forall|i: int| 0 <= i < old(ms)@.len() ==> (#[trigger] old(ms)@[i]).messages < usize::MAX,
    ensures
        usage_views(final(ms)@) == with_message(usage_views(old(ms)@), model@, counts),
{
    let ghost all = usage_views(ms@);
    let mut k: usize = 0;
    while k < ms.len() && text_less(ms[k].model.as_str(), model)
        invariant
            all == usage_views(ms@),
            k <= ms@.len(),
            forall|j: int| 0 <= j < k ==> text_lt((#[trigger] all[j]).model, model@),
        decreases ms@.len() - k,
    {
        k = k + 1;
    }
    proof {
        if k < ms@.len() {
            assert(all[k as int].model == ms@[k as int].model@);
        }
        lemma_model_rank_is(all, model@, k as int);
    }
    if k < ms.len() && same(ms[k].model.as_str(), model) {
        let old_entry = &ms[k];
        proof {
            assert(ms@[k as int].messages < usize::MAX);
        }
        let entry = ModelUsage {
            model: model.to_owned(),
            messages: old_entry.messages + 1,
            input_tokens: capped_add(old_entry.input_tokens, counts.input_tokens),
            output_tokens: capped_add(old_entry.output_tokens, counts.output_tokens),
            cache_creation_input_tokens: capped_add(
                old_entry.cache_creation_input_tokens,
                counts.cache_creation_input_tokens,
            ),
            cache_read_input_tokens: capped_add(
                old_entry.cache_read_input_tokens,
                counts.cache_read_input_tokens,
            ),
        };
        let ghost ev = entry@;
        ms.set(k, entry);
        proof {
            assert(usage_views(ms@) =~= all.update(k as int, ev));
        }
    } else {
        let entry = ModelUsage {
            model: model.to_owned(),
            messages: 1,
            input_tokens: counts.input_tokens,
            output_tokens: counts.output_tokens,
            cache_creation_input_tokens: counts.cache_creation_input_tokens,
            cache_read_input_tokens: counts.cache_read_input_tokens,
        };
        let ghost ev = entry@;
        ms.insert(k, entry);
        proof {
            assert(usage_views(ms@) =~= all.insert(k as int, ev));
        }
    }
}

impl Tally {
    /// A count over no line.
    pub fn new() -> (t: Tally)
        ensures
            t@ == empty_tally(),
            t@.fits(),
    {
        let t = Tally {
            seen: Vec::new(),
            per_model: Vec::new(),
            counted: 0,
            missing_usage: 0,
            missing_id: 0,
            duplicates: 0,
        };
        proof {
            assert(t@.seen =~= Seq::<Seq<char>>::empty());
            assert(t@.per_model =~= Seq::<ModelUsageV>::empty());
        }
        t
    }

    /// Takes up one parsed line.
    pub fn add_line(&mut self, line: &Json)
        requires
            old(self)@.fits(),
            old(self)@.lines() < usize::MAX,
        ensures
            final(self)@ == tally_line(old(self)@, line@),
            final(self)@.fits(),
    {
        proof {
            tally_line_fits(self@, line@);
        }
        let assistant = line.is_object() && match line.str_at("type") {
            Some(t) => same(t, "assistant"),
            None => false,
        };
        if !assistant {
            return;
        }
        let message = match line.get("message") {
            Some(m) => m,
            None => {
                self.missing_id = self.missing_id + 1;
                return;
            },
        };
        if !message.is_object() {
            self.missing_id = self.missing_id + 1;
            return;
        }
        let id = match message.str_at("id") {
            Some(s) => s,
            None => {
                self.missing_id = self.missing_id + 1;
                return;
            },
        };
        if id.is_empty() {
            self.missing_id = self.missing_id + 1;
            return;
        }
        if list_has(&self.seen, id) {
            self.duplicates = self.duplicates + 1;
            return;
        }
        let ghost seen0 = views(self.seen@);
        let ghost t0 = self@;
        self.seen.push(id.to_owned());
        proof {
            assert(views(self.seen@) =~= seen0.push(id@));
        }
        let model: Option<&str> = match message.str_at("model") {
            Some(m) => if m.is_empty() {
                None
            } else {
                Some(m)
            },
            None => None,
        };
        let counts: Option<TokenCounts> = match message.get("usage") {
            Some(u) => read_token_counts(u),
            None => None,
        };
        match (model, counts) {
            (Some(m), Some(c)) => {
                proof {
                    assert forall|i: int| 0 <= i < self.per_model@.len() implies (
                    #[trigger] self.per_model@[i]).messages < usize::MAX by {
                        lemma_sum_bound(t0.per_model, i);
                        assert(t0.per_model[i] == self.per_model@[i]@);
                    }
                }
                self.counted = self.counted + 1;
                add_message(&mut self.per_model, m, c);
            },
            _ => {
                self.missing_usage = self.missing_usage + 1;
            },
        }
    }
}

/// The aggregated usage of a session.
#[derive(Debug, Clone, PartialEq, Eq)]
pub struct SessionUsage {
    /// Schema version.
    pub v: u32,
    /// Session id that these totals belong to.
    pub session: String,
    /// Adapter that produced the record.
    pub source: String,
    /// Whether any usable usage was found.
    pub source_status: UsageSourceStatus,
    /// Attribution strength, always observed.
    pub attribution: Attribution,
    /// The transcript parsing contract in force.
    pub adapter_version: u32,
    /// Message ids with usable usage.
    pub messages_counted: usize,
    /// Message ids whose usage or model was absent or malformed.
    pub messages_missing_usage: usize,
    /// Assistant lines without a message id.
    pub assistant_lines_missing_message_id: usize,
    /// Assistant lines whose message id had been seen before.
    pub duplicate_usage_lines_deduped: usize,
    /// Totals of each model, in the order of the model names.
    pub per_model: Vec<ModelUsage>,
}

/// The contents of a [`SessionUsage`].
pub ghost struct SessionUsageV {
    pub v: u32,
    pub session: Seq<char>,
    pub source: Seq<char>,
    pub source_status: UsageSourceStatus,
    pub attribution: Attribution,
    pub adapter_version: u32,
    pub messages_counted: int,
    pub messages_missing_usage: int,
    pub assistant_lines_missing_message_id: int,
    pub duplicate_usage_lines_deduped: int,
    pub per_model: Seq<ModelUsageV>,
}

impl View for SessionUsage {
    type V = SessionUsageV;

    open spec fn view(&self) -> SessionUsageV {
        SessionUsageV {
            v: self.v,
            session: self.session@,
            source: self.source@,
            source_status: self.source_status,
            attribution: self.attribution,
            adapter_version: self.adapter_version,
            messages_counted: self.messages_counted as int,
            messages_missing_usage: self.messages_missing_usage as int,
            assistant_lines_missing_message_id: self.assistant_lines_missing_message_id as int,
            duplicate_usage_lines_deduped: self.duplicate_usage_lines_deduped as int,
            per_model: usage_views(self.per_model@),
        }
    }
}

/// The record of a count.
pub open spec fn usage_record(t: TallyV, session: Seq<char>) -> SessionUsageV {
    SessionUsageV {
        v: SCHEMA_VERSION,
        session,
        source: "transcript"@,
        source_status: if t.counted > 0 {
            UsageSourceStatus::Okay
        } else {
            UsageSourceStatus::NoUsageParsed
        },
        attribution: Attribution::Observed,
        adapter_version: ADAPTER_VERSION,
        messages_counted: t.counted,
        messages_missing_usage: t.missing_usage,
        assistant_lines_missing_message_id: t.missing_id,
        duplicate_usage_lines_deduped: t.duplicates,
        per_model: t.per_model,
    }
}

impl Tally {
    /// The record of the count.
    pub fn into_usage(self, session: &str) -> (r: SessionUsage)
        ensures
            r@ == usage_record(self@, session@),
    {
        let source_status = if self.counted > 0 {
            UsageSourceStatus::Okay
        } else {
            UsageSourceStatus::NoUsageParsed
        };
        SessionUsage {
            v: SCHEMA_VERSION,
            session: session.to_owned(),
            source: "transcript".to_owned(),
            source_status,
            attribution: Attribution::Observed,
            adapter_version: ADAPTER_VERSION,
            messages_counted: self.counted,
            messages_missing_usage: self.missing_usage,
            assistant_lines_missing_message_id: self.missing_id,
            duplicate_usage_lines_deduped: self.duplicates,
            per_model: self.per_model,
        }
    }
}

/// The usage that a transcript reports.
pub open spec fn usage_of(content: Seq<char>, session: Seq<char>) -> SessionUsageV {
    usage_record(tally_lines(lines_of(content)), session)
}

/// Sums up the token usage of each model over the contents of a transcript.
///
/// Each message id counts once. Lines that are no JSON, no objects or no
/// assistant lines are ignored.
pub fn aggregate_transcript_usage(content: &str, session: &str) -> (r: SessionUsage)
    ensures
        r@ == usage_of(content@, session@),
{
    let all = lines(content);
    let ghost av = views(all@);
    let n: usize = all.len();
    let mut t = Tally::new();
    for i in 0..n
        invariant
            n == all@.len(),
            av == views(all@),
            t@ == tally_lines(av.take(i as int)),
            t@.fits(),
            t@.lines() <= i,
    {
        proof {
            assert(av.take(i + 1).drop_last() =~= av.take(i as int));
            assert(av.take(i + 1).last() == all@[i as int]@);
        }
        let line = all[i].as_str();
        if !blank(line) {
            match parse(line) {
                Ok(v) => {
                    proof {
                        tally_line_fits(t@, v@);
                    }
                    t.add_line(&v);
                },
                Err(_) => {},
            }
        }
    }
    proof {
        assert(av.take(av.len() as int) =~= av);
    }
    t.into_usage(session)
}

// ---------------------------------------------------------------------------
// Laws
// ---------------------------------------------------------------------------

/// A line of a message that was seen before changes no total: it is counted as a
/// duplicate and nothing else.
pub proof fn repeated_messages_count_once(t: TallyV, line: JsonV)
    requires
        is_assistant(line),
        message_id(line) is Some,
    ensures
        tally_line(tally_line(t, line), line) == (TallyV {
            duplicates: tally_line(t, line).duplicates + 1,
            ..tally_line(t, line)
        }),
{
    let id = message_id(line)->0;
    let u = tally_line(t, line);
    if !t.seen.contains(id) {
        assert(u.seen =~= t.seen.push(id));
        assert(u.seen[t.seen.len() as int] == id);
    }
    assert(u.seen.contains(id));
}

/// Whether a line of a transcript is that of an assistant message with the id `id`.
pub open spec fn is_message_line(l: Seq<char>, id: Seq<char>) -> bool {
    !is_blank(l) && match line_value(l) {
        Some(line) => is_assistant(line) && message_id(line) == Some(id),
        None => false,
    }
}

/// The id of a line of a transcript is among the ids seen.
proof fn lemma_ids_are_seen(all: Seq<Seq<char>>, i: int, id: Seq<char>)
    requires
        0 <= i < all.len(),
        is_message_line(all[i], id),
    ensures
        tally_lines(all).seen.contains(id),
    decreases all.len(),
{
    let t = tally_lines(all.drop_last());
    let u = tally_lines(all);
    if i < all.len() - 1 {
        assert(all.drop_last()[i] == all[i]);
        lemma_ids_are_seen(all.drop_last(), i, id);
        let k = t.seen.index_of(id);
        assert(u.seen[k] == id);
    } else if !t.seen.contains(id) {
        assert(u.seen[t.seen.len() as int] == id);
    }
}

/// A line of a message that is repeated, at once or anywhere later, changes no total:
/// it is counted as a duplicate and nothing else, and what stands behind it counts as
/// if it were not there.
pub proof fn repeated_lines_count_once(
    before: Seq<Seq<char>>,
    l: Seq<char>,
    behind: Seq<Seq<char>>,
    id: Seq<char>,
)
    requires
        before.contains(l),
        is_message_line(l, id),
    ensures
        tally_lines(before.push(l) + behind) == (TallyV {
            duplicates: tally_lines(before + behind).duplicates + 1,
            ..tally_lines(before + behind)
        }),
    decreases behind.len(),
{
    let all = before.push(l) + behind;
    if behind.len() == 0 {
        lemma_ids_are_seen(before, before.index_of(l), id);
        assert(all =~= before.push(l));
        assert(before.push(l).drop_last() =~= before);
        assert(before + behind =~= before);
    } else {
        repeated_lines_count_once(before, l, behind.drop_last(), id);
        assert(all.drop_last() =~= before.push(l) + behind.drop_last());
        assert((before + behind).drop_last() =~= before + behind.drop_last());
    }
}

/// A line of a transcript that is repeated at its end changes nothing of the usage
/// but the number of duplicates, which is one greater.
pub proof fn repeating_a_line_changes_only_the_duplicates(
    content: Seq<char>,
    l: Seq<char>,
    id: Seq<char>,
    session: Seq<char>,
)
    requires
        lines_of(content).contains(l),
        is_message_line(l, id),
    ensures
        usage_of(content + "\n"@ + l, session) == (SessionUsageV {
            duplicate_usage_lines_deduped: usage_of(content, session).duplicate_usage_lines_deduped
                + 1,
            ..usage_of(content, session)
        }),
{
    let cut = Cut::At('\n');
    let p = pieces(content, cut);
    let all = lines_of(content);
    let k = all.index_of(l);
    lemma_pieces_nonempty(content, cut);
    lemma_lines_hold_no_feed(content, k);
    lemma_line_behind(content, l);
    let whole = p.map_values(|piece: Seq<char>| strip_cr(piece));
    if p.last().len() == 0 {
        assert(whole.drop_last() =~= all);
        assert(is_blank(whole.last()));
    } else {
        assert(whole.drop_last() =~= all.drop_last());
        assert(all.last() == p.last());
        if p.last().last() == '\r' {
            let x = p.last();
            let y = strip_cr(x);
            if is_blank(y) {
                assert forall|i: int| 0 <= i < x.len() implies is_space(#[trigger] x[i]) by {
                    if i < y.len() {
                        assert(y[i] == x[i]);
                    }
                }
            } else {
                let i = choose|i: int| 0 <= i < y.len() && !is_space(#[trigger] y[i]);
                assert(x[i] == y[i]);
            }
        } else {
            assert(whole.last() == all.last());
        }
    }
    assert(tally_lines(whole) == tally_lines(all));
    lemma_ids_are_seen(all, k, id);
    assert(whole.push(l).drop_last() =~= whole);
}

/// The numbers of a whole transcript fit together: the ids with and without
/// usage, the lines without id and the repeated lines are all the assistant
/// lines, and the messages of the models are the messages counted.
pub proof fn usage_numbers_fit(all: Seq<Seq<char>>)
    ensures
        tally_lines(all).fits(),
        tally_lines(all).lines() <= all.len(),
    decreases all.len(),
{
    if all.len() > 0 {
        let t = all.drop_last();
        usage_numbers_fit(t);
        match line_value(all.last()) {
            Some(line) => {
                tally_line_fits(tally_lines(t), line);
            },
            None => {},
        }
    } else {
        assert(messages_sum(Seq::<ModelUsageV>::empty()) == 0);
    }
}

/// Usage without a message counted is told apart from usage of zero tokens.
pub proof fn no_usage_is_not_zero_usage(content: Seq<char>, session: Seq<char>)
    ensures
        usage_of(content, session).source_status == UsageSourceStatus::NoUsageParsed <==> usage_of(
            content,
            session,
        ).messages_counted == 0,
        usage_of(content, session).source_status == UsageSourceStatus::NoUsageParsed ==> usage_of(
            content,
            session,
        ).per_model.len() == 0,
        usage_of(content, session).attribution == Attribution::Observed,
{
    let t = tally_lines(lines_of(content));
    usage_numbers_fit(lines_of(content));
    if t.per_model.len() > 0 {
        lemma_sum_bound(t.per_model, 0);
    }
}

/// Whether a line of a transcript is that of an assistant.
pub open spec fn assistant_speaks(l: Seq<char>) -> bool {
    &&& !is_blank(l)
    &&& line_value(l) matches Some(v) && v is Object && v.text_at("type"@) == Some("assistant"@)
}

/// Whether an assistant's line is of the message with the id `id`.
pub open spec fn speaks_of(l: Seq<char>, id: Seq<char>) -> bool {
    &&& assistant_speaks(l)
    &&& id.len() > 0
    &&& line_value(l)->0.get("message"@) matches Some(message) && message.get("id"@) == Some(
        JsonV::Str(id),
    )
}

/// Whether an assistant's line reports usage of a model that can be told.
pub open spec fn reports(l: Seq<char>, model: Seq<char>, counts: TokenCounts) -> bool {
    &&& model.len() > 0
    &&& line_value(l)->0.get("message"@) matches Some(message) && {
        &&& message.get("model"@) == Some(JsonV::Str(model))
        &&& message.get("usage"@) matches Some(usage) && is_usage(usage, counts)
    }
}

/// Whether a counter has a value: the natural number that stands there, or none where
/// nothing does.
pub open spec fn is_counter(usage: JsonV, name: Seq<char>, n: u64) -> bool {
    match usage.get(name) {
        Some(v) => v == JsonV::Int(n as int),
        None => n == 0,
    }
}

/// Whether a value is a usage with the given counters, of which one is there at least.
pub open spec fn is_usage(usage: JsonV, counts: TokenCounts) -> bool {
    &&& exists|i: int| 0 <= i < 4 && usage.get(#[trigger] counter_names()[i]) is Some
    &&& is_counter(usage, "input_tokens"@, counts.input_tokens)
    &&& is_counter(usage, "output_tokens"@, counts.output_tokens)
    &&& is_counter(usage, "cache_creation_input_tokens"@, counts.cache_creation_input_tokens)
    &&& is_counter(usage, "cache_read_input_tokens"@, counts.cache_read_input_tokens)
}

/// The names of the counters.
pub open spec fn counter_names() -> Seq<Seq<char>> {
    seq![
        "input_tokens"@,
        "output_tokens"@,
        "cache_creation_input_tokens"@,
        "cache_read_input_tokens"@,
    ]
}

/// A usage is read for what its counters are, and for none exactly where it is no usage.
pub proof fn usage_is_read_by_name(usage: JsonV, counts: TokenCounts)
    ensures
        counts_of(usage) == Some(counts) <==> is_usage(usage, counts),
{
    let names = counter_names();
    assert(names[0] == "input_tokens"@ && names[1] == "output_tokens"@);
    assert(names[2] == "cache_creation_input_tokens"@ && names[3] == "cache_read_input_tokens"@);
    if usage.get("input_tokens"@) is Some {
        assert(usage.get(names[0]) is Some);
    }
    if usage.get("output_tokens"@) is Some {
        assert(usage.get(names[1]) is Some);
    }
    if usage.get("cache_creation_input_tokens"@) is Some {
        assert(usage.get(names[2]) is Some);
    }
    if usage.get("cache_read_input_tokens"@) is Some {
        assert(usage.get(names[3]) is Some);
    }
    if is_usage(usage, counts) {
        let i = choose|i: int| 0 <= i < 4 && usage.get(#[trigger] names[i]) is Some;
        assert(i == 0 || i == 1 || i == 2 || i == 3);
    }
}

proof fn lemma_reports(l: Seq<char>, model: Seq<char>, counts: TokenCounts)
    requires
        assistant_speaks(l),
        line_value(l)->0.get("message"@) is Some,
    ensures
        reports(l, model, counts) <==> reported_usage(line_value(l)->0.get("message"@)->0) == Some(
            (model, counts),
        ),
{
    let message = line_value(l)->0.get("message"@)->0;
    match message.get("usage"@) {
        Some(usage) => {
            usage_is_read_by_name(usage, counts);
        },
        None => {},
    }
}

proof fn lemma_speaks_of(l: Seq<char>, id: Seq<char>)
    ensures
        speaks_of(l, id) <==> is_message_line(l, id),
{
    match line_value(l) {
        Some(v) => match v.get("message"@) {
            Some(message) => {
                assert(message.get("id"@) is Some ==> message is Object);
            },
            None => {},
        },
        None => {},
    }
}

/// The ids that were seen are those of the lines.
proof fn lemma_seen(all: Seq<Seq<char>>, id: Seq<char>)
    ensures
        tally_lines(all).seen.contains(id) <==> exists|j: int|
            0 <= j < all.len() && speaks_of(#[trigger] all[j], id),
    decreases all.len(),
{
    if all.len() > 0 {
        let t = all.drop_last();
        lemma_seen(t, id);
        let before = tally_lines(t).seen;
        let after = tally_lines(all).seen;
        lemma_speaks_of(all.last(), id);
        if before.contains(id) {
            let j = choose|j: int| 0 <= j < t.len() && speaks_of(#[trigger] t[j], id);
            assert(speaks_of(all[j], id));
            let k = before.index_of(id);
            assert(after[k] == id);
        }
        if exists|j: int| 0 <= j < all.len() && speaks_of(#[trigger] all[j], id) {
            let j = choose|j: int| 0 <= j < all.len() && speaks_of(#[trigger] all[j], id);
            lemma_speaks_of(all[j], id);
            lemma_ids_are_seen(all, j, id);
        }
        if after.contains(id) && !before.contains(id) {
            let k = after.index_of(id);
            if k < before.len() {
                assert(before[k] == id);
            }
            assert(speaks_of(all[all.len() - 1], id));
        }
    } else {
        assert(!tally_lines(all).seen.contains(id));
    }
}

/// Whether a line is the first of the message with the id `id`.
pub open spec fn is_first_of(before: Seq<Seq<char>>, l: Seq<char>, id: Seq<char>) -> bool {
    speaks_of(l, id) && forall|j: int| 0 <= j < before.len() ==> !speaks_of(#[trigger] before[j], id)
}

/// A line that is no assistant's changes nothing. One without an id is told, and one of a
/// message that had a line before is told to be repeated; neither changes the totals.
pub proof fn lines_without_news_change_no_total(before: Seq<Seq<char>>, l: Seq<char>)
    ensures
        !assistant_speaks(l) ==> tally_lines(before.push(l)) == tally_lines(before),
        assistant_speaks(l) && (forall|id: Seq<char>| !#[trigger] speaks_of(l, id)) ==> tally_lines(
            before.push(l),
        ) == (TallyV { missing_id: tally_lines(before).missing_id + 1, ..tally_lines(before) }),
        forall|id: Seq<char>, j: int|
            0 <= j < before.len() && #[trigger] speaks_of(l, id) && #[trigger] speaks_of(
                before[j],
                id,
            ) ==> tally_lines(before.push(l)) == (TallyV {
                duplicates: tally_lines(before).duplicates + 1,
                ..tally_lines(before)
            }),
{
    let all = before.push(l);
    assert(all.drop_last() =~= before);
    assert(all.last() == l);
    if assistant_speaks(l) && message_id(line_value(l)->0) is Some {
        lemma_speaks_of(l, message_id(line_value(l)->0)->0);
    }
    assert forall|id: Seq<char>, j: int|
        0 <= j < before.len() && #[trigger] speaks_of(l, id) && #[trigger] speaks_of(
            before[j],
            id,
        ) implies tally_lines(all) == (TallyV {
        duplicates: tally_lines(before).duplicates + 1,
        ..tally_lines(before)
    }) by {
        lemma_speaks_of(l, id);
        lemma_seen(before, id);
    }
}

/// The first line of a message without usage counts as a message without usage, and the
/// totals of the models stay what they were.
pub proof fn messages_without_usage_are_told(before: Seq<Seq<char>>, l: Seq<char>, id: Seq<char>)
    requires
        is_first_of(before, l, id),
        forall|model: Seq<char>, counts: TokenCounts| !#[trigger] reports(l, model, counts),
    ensures
        tally_lines(before.push(l)).missing_usage == tally_lines(before).missing_usage + 1,
        tally_lines(before.push(l)).counted == tally_lines(before).counted,
        tally_lines(before.push(l)).missing_id == tally_lines(before).missing_id,
        tally_lines(before.push(l)).duplicates == tally_lines(before).duplicates,
        tally_lines(before.push(l)).per_model == tally_lines(before).per_model,
{
    let all = before.push(l);
    assert(all.drop_last() =~= before);
    assert(all.last() == l);
    lemma_speaks_of(l, id);
    lemma_seen(before, id);
    match reported_usage(line_value(l)->0.get("message"@)->0) {
        Some((model, counts)) => {
            lemma_reports(l, model, counts);
            assert(reports(l, model, counts));
        },
        None => {},
    }
}

/// The first line of a message with usage counts as one message, and for one message more
/// of its model, by its own counters; the other models stay what they were.
pub proof fn messages_count_for_their_model(
    before: Seq<Seq<char>>,
    l: Seq<char>,
    id: Seq<char>,
    model: Seq<char>,
    counts: TokenCounts,
    m: ModelUsageV,
)
    requires
        is_first_of(before, l, id),
        reports(l, model, counts),
    ensures
        tally_lines(before.push(l)).counted == tally_lines(before).counted + 1,
        tally_lines(before.push(l)).missing_usage == tally_lines(before).missing_usage,
        tally_lines(before.push(l)).missing_id == tally_lines(before).missing_id,
        tally_lines(before.push(l)).duplicates == tally_lines(before).duplicates,
        m.model != model ==> (tally_lines(before.push(l)).per_model.contains(m) <==> tally_lines(
            before,
        ).per_model.contains(m)),
        m.model == model && tally_lines(before).per_model.contains(m) ==> tally_lines(
            before.push(l),
        ).per_model.contains(
            ModelUsageV {
                model,
                messages: m.messages + 1,
                tokens: TokenCounts {
                    input_tokens: at_most(m.tokens.input_tokens + counts.input_tokens),
                    output_tokens: at_most(m.tokens.output_tokens + counts.output_tokens),
                    cache_creation_input_tokens: at_most(
                        m.tokens.cache_creation_input_tokens + counts.cache_creation_input_tokens,
                    ),
                    cache_read_input_tokens: at_most(
                        m.tokens.cache_read_input_tokens + counts.cache_read_input_tokens,
                    ),
                },
            },
        ),
        (forall|x: ModelUsageV| #[trigger]
            tally_lines(before).per_model.contains(x) ==> x.model != model) ==> tally_lines(
            before.push(l),
        ).per_model.contains(ModelUsageV { model, messages: 1, tokens: counts }),
{
    let all = before.push(l);
    assert(all.drop_last() =~= before);
    assert(all.last() == l);
    lemma_speaks_of(l, id);
    lemma_seen(before, id);
    lemma_reports(l, model, counts);
    usage_numbers_fit(before);
    lemma_totals_by_model(tally_lines(before).per_model, model, counts, m);
}

/// A sum that no number of 64 bits falls short of, or the greatest of them.
pub open spec fn at_most(sum: int) -> u64 {
    if sum < 0x1_0000_0000_0000_0000 {
        sum as u64
    } else {
        0xffff_ffff_ffff_ffff
    }
}

proof fn lemma_totals_by_model(
    ms: Seq<ModelUsageV>,
    model: Seq<char>,
    counts: TokenCounts,
    m: ModelUsageV,
)
    requires
        models_ordered(ms),
    ensures
        m.model != model ==> (with_message(ms, model, counts).contains(m) <==> ms.contains(m)),
        m.model == model && ms.contains(m) ==> with_message(ms, model, counts).contains(
            ModelUsageV {
                model,
                messages: m.messages + 1,
                tokens: counts_sum(m.tokens, counts),
            },
        ),
        (forall|x: ModelUsageV| #[trigger] ms.contains(x) ==> x.model != model) ==> with_message(
            ms,
            model,
            counts,
        ).contains(ModelUsageV { model, messages: 1, tokens: counts }),
{
    lemma_model_rank(ms, model);
    let k = model_rank(ms, model);
    let out = with_message(ms, model, counts);
    let there = k < ms.len() && ms[k].model == model;
    if there {
        assert(ms.contains(ms[k]));
    }
    if m.model == model && ms.contains(m) {
        let i = ms.index_of(m);
        text_lt_total(model, model);
        if i < k {
            assert(text_lt(ms[i].model, model));
        }
        if k < i {
            assert(text_lt(ms[k].model, ms[i].model));
        }
        assert(i == k);
        assert(out[k].model == model);
    }
    if m.model != model {
        if ms.contains(m) {
            let i = ms.index_of(m);
            if there || i < k {
                assert(out[i] == m);
            } else {
                assert(out[i + 1] == m);
            }
        }
        if out.contains(m) {
            let i = out.index_of(m);
            if there || i < k {
                assert(ms[i] == m);
            } else if i > k {
                assert(ms[i - 1] == m);
            }
        }
    }
    if !there {
        assert(out[k] == (ModelUsageV { model, messages: 1, tokens: counts }));
    }
}

/// The record of a transcript tells what was counted over its lines, and of a transcript
/// without lines nothing.
pub proof fn the_record_tells_what_was_counted(content: Seq<char>, session: Seq<char>)
    ensures
        usage_of(content, session).messages_counted == tally_lines(lines_of(content)).counted,
        usage_of(content, session).messages_missing_usage == tally_lines(
            lines_of(content),
        ).missing_usage,
        usage_of(content, session).assistant_lines_missing_message_id == tally_lines(
            lines_of(content),
        ).missing_id,
        usage_of(content, session).duplicate_usage_lines_deduped == tally_lines(
            lines_of(content),
        ).duplicates,
        usage_of(content, session).per_model == tally_lines(lines_of(content)).per_model,
        usage_of(content, session).session == session,
        ({
            let none = tally_lines(Seq::<Seq<char>>::empty());
            &&& none.counted == 0 && none.missing_usage == 0 && none.missing_id == 0
            &&& none.duplicates == 0 && none.per_model.len() == 0
        }),
{
}

} // verus!
