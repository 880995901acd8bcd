//! Historical data providers: what a request asks for, what a source can
//! deliver, and the acceptance rules a loaded dataset must pass before a
//! replay may use it.
use vstd::prelude::*;

use std::collections::BTreeMap;

use crate::adapters::parquet::{schema_check, validate_schema_for_dataset};
use crate::engine::replay::{CandleFacts, EventFacts};

verus! {

#[verifier::external_type_specification]
#[verifier::external_body]
pub struct ExPathBuf(std::path::PathBuf);

/// Which kind of market data a request wants.
#[derive(Clone, Copy, Debug, PartialEq, Eq, Structural)]
pub enum MarketDataMode {
    Candles,
    Events,
    PreferCandles,
    PreferEvents,
}

/// Requests prefer candles unless they say otherwise.
pub fn default_prefer_candles() -> (mode: MarketDataMode)
    ensures
        mode == MarketDataMode::PreferCandles,
{
    MarketDataMode::PreferCandles
}

/// What a data source can deliver.
#[derive(Clone, Copy, Debug, PartialEq, Eq, Structural)]
pub struct DataSourceCapabilities {
    pub supports_candles: bool,
    pub supports_events: bool,
    pub supports_range_filtering: bool,
    pub supports_sequence_guarantees: bool,
}

#[derive(Clone, Copy, Debug, PartialEq, Eq, Structural)]
pub enum SourceDataFormat {
    Memory,
    Csv,
    Json,
    Parquet,
    RustProvider,
}

#[derive(Clone, Copy, Debug, PartialEq, Eq, Structural)]
pub enum SourceFieldType {
    Timestamp,
    Float64,
    UInt64,
    Utf8,
    Boolean,
}

/// One column of a source schema.
#[derive(Clone, Debug)]
pub struct SourceField {
    pub name: String,
    pub data_type: SourceFieldType,
    pub nullable: bool,
}

/// The columns a source declares.
#[derive(Clone, Debug)]
pub struct SourceSchema {
    pub format: SourceDataFormat,
    pub fields: Vec<SourceField>,
}

/// Provenance of a loaded dataset.
#[derive(Clone, Debug)]
pub struct DataSourceMetadata {
    pub provider_name: String,
    pub instrument: String,
    pub timeframe: Option<String>,
    pub data_mode: String,
    pub fingerprint: Option<String>,
    pub source_schema: Option<SourceSchema>,
    pub notes: BTreeMap<String, String>,
}

/// A loaded dataset as acceptance sees it, in the order the source
/// delivered it.
#[derive(Clone, Debug)]
pub enum MarketDataFacts {
    Candles(Vec<CandleFacts>),
    Events(Vec<EventFacts>),
}

/// Abstract contents of a `MarketDataFacts`.
pub enum FactsView {
    Candles(Seq<CandleFacts>),
    Events(Seq<EventFacts>),
}

impl View for MarketDataFacts {
    type V = FactsView;

    open spec fn view(&self) -> FactsView {
        match self {
            MarketDataFacts::Candles(c) => FactsView::Candles(c@),
            MarketDataFacts::Events(e) => FactsView::Events(e@),
        }
    }
}

/// A market data request. Times are nanoseconds since the Unix epoch (UTC).
#[derive(Clone, Debug)]
pub struct MarketDataRequest {
    pub symbol: String,
    pub venue: Option<String>,
    pub timeframe: Option<String>,
    pub start: Option<i64>,
    pub end: Option<i64>,
    pub mode: MarketDataMode,
    pub limit: Option<usize>,
}

/// Why a request or a loaded dataset is refused.
#[derive(Clone, Copy, Debug, PartialEq, Eq, Structural)]
pub enum ProviderError {
    /// The request's symbol is empty or only whitespace.
    BlankSymbol,
    /// The request's start is after its end.
    StartAfterEnd,
    /// The source returned another instrument than the one requested.
    InstrumentMismatch,
    /// The source returned another timeframe than the one requested.
    TimeframeMismatch,
    EventsForCandleRequest,
    CandlesForEventRequest,
    /// Events returned for a candle-preferring request by a source without
    /// event support.
    PreferCandlesUnsatisfiable,
    /// Candles returned for an event-preferring request by a source without
    /// candle support.
    PreferEventsUnsatisfiable,
    /// The candle at this index is not later than its predecessor.
    CandlesNotIncreasing { index: usize },
    InvalidCandle { index: usize },
    InvalidEvent { index: usize },
    /// The event at this index is earlier than its predecessor.
    EventsOutOfOrder { index: usize },
    /// The event at this index shares its timestamp with its predecessor
    /// without a larger sequence number.
    SequenceNotIncreasing { index: usize },
    /// The source promises sequence numbers but the event at this index,
    /// the first of a new timestamp, has sequence 0.
    MissingSequence { index: usize },
    /// Nothing is left in the requested range.
    EmptyRange,
    /// The schema lacks the required field at this position of the
    /// required-field list.
    MissingSchemaField { required: usize },
    /// The schema's field for this required field has another type.
    SchemaFieldType { required: usize },
}

/// Unicode `White_Space` characters, which `str::trim` removes.
pub open spec fn is_unicode_white_space(c: char) -> bool {
    let u = c as u32;
    ||| 0x09 <= u <= 0x0D
    ||| u == 0x20
    ||| u == 0x85
    ||| u == 0xA0
    ||| u == 0x1680
    ||| 0x2000 <= u <= 0x200A
    ||| u == 0x2028
    ||| u == 0x2029
    ||| u == 0x202F
    ||| u == 0x205F
    ||| u == 0x3000
}

/// Nothing is left of the text once whitespace is trimmed.
pub open spec fn is_blank_text(text: Seq<char>) -> bool {
    forall|i: int| 0 <= i < text.len() ==> is_unicode_white_space(#[trigger] text[i])
}

/// Whether a character is Unicode whitespace.
pub fn is_white_space(c: char) -> (white: bool)
    ensures
        white == is_unicode_white_space(c),
{
    let u = c as u32;
    (0x09 <= u && u <= 0x0D) || u == 0x20 || u == 0x85 || u == 0xA0 || u == 0x1680 || (0x2000 <= u
        && u <= 0x200A) || u == 0x2028 || u == 0x2029 || u == 0x202F || u == 0x205F || u == 0x3000
}

/// Whether the text is empty or only whitespace.
pub fn is_blank(text: &str) -> (blank: bool)
    ensures
        blank == is_blank_text(text@),
{
    broadcast use vstd::string::axiom_spec_iter;

    let mut blank = true;
    for c in it: text.chars()
        invariant
            it.seq() == text@,
            blank == (forall|i: int| 0 <= i < it.index() ==> is_unicode_white_space(#[trigger] text@[i])),
    {
        if !is_white_space(c) {
            blank = false;
        }
    }
    blank
}

pub open spec fn start_after_end(start: Option<i64>, end: Option<i64>) -> bool {
    start matches Some(s) && end matches Some(e) && s > e
}

pub open spec fn request_check(request: MarketDataRequest) -> Result<(), ProviderError> {
    if is_blank_text(request.symbol@) {
        Err(ProviderError::BlankSymbol)
    } else if start_after_end(request.start, request.end) {
        Err(ProviderError::StartAfterEnd)
    } else {
        Ok(())
    }
}

impl MarketDataRequest {
    /// A request needs a symbol that is not blank, and a start no later
    /// than its end.
    pub fn validate(&self) -> (result: Result<(), ProviderError>)
        ensures
            result == request_check(*self),
    {
        if is_blank(self.symbol.as_str()) {
            return Err(ProviderError::BlankSymbol);
        }
        match (self.start, self.end) {
            (Some(s), Some(e)) => if s > e {
                return Err(ProviderError::StartAfterEnd);
            },
            _ => {},
        }
        Ok(())
    }
}


pub open spec fn facts_len(dataset: FactsView) -> nat {
    match dataset {
        FactsView::Candles(c) => c.len(),
        FactsView::Events(e) => e.len(),
    }
}

impl MarketDataFacts {
    /// Number of candles or events.
    pub fn len(&self) -> (n: usize)
        ensures
            n == facts_len(self@),
    {
        match self {
            MarketDataFacts::Candles(c) => c.len(),
            MarketDataFacts::Events(e) => e.len(),
        }
    }

    pub fn is_empty(&self) -> (empty: bool)
        ensures
            empty == (facts_len(self@) == 0),
    {
        self.len() == 0
    }

    /// `"candles"` or `"events"`.
    pub fn mode_label(&self) -> (label: &'static str)
        ensures
            label@ == (match self@ {
                FactsView::Candles(_) => "candles"@,
                FactsView::Events(_) => "events"@,
            }),
    {
        match self {
            MarketDataFacts::Candles(_) => "candles",
            MarketDataFacts::Events(_) => "events",
        }
    }

    /// Times of the first and the last entry, when there is one.
    pub fn time_bounds(&self) -> (bounds: Option<(i64, i64)>)
        ensures
            match self@ {
                FactsView::Candles(c) => bounds == if c.len() == 0 {
                    None
                } else {
                    Some((c[0].timestamp, c.last().timestamp))
                },
                FactsView::Events(e) => bounds == if e.len() == 0 {
                    None
                } else {
                    Some((e[0].timestamp, e.last().timestamp))
                },
            },
    {
        match self {
            MarketDataFacts::Candles(c) => if c.len() == 0 {
                None
            } else {
                Some((c[0].timestamp, c[c.len() - 1].timestamp))
            },
            MarketDataFacts::Events(e) => if e.len() == 0 {
                None
            } else {
                Some((e[0].timestamp, e[e.len() - 1].timestamp))
            },
        }
    }
}

/// Whether the kind of data returned answers the requested mode.
pub open spec fn mode_check(
    dataset: FactsView,
    mode: MarketDataMode,
    capabilities: DataSourceCapabilities,
) -> Result<(), ProviderError> {
    match (mode, dataset) {
        (MarketDataMode::Candles, FactsView::Events(_)) => Err(
            ProviderError::EventsForCandleRequest,
        ),
        (MarketDataMode::Events, FactsView::Candles(_)) => Err(
            ProviderError::CandlesForEventRequest,
        ),
        (MarketDataMode::PreferCandles, FactsView::Events(_)) => if !capabilities.supports_events {
            Err(ProviderError::PreferCandlesUnsatisfiable)
        } else {
            Ok(())
        },
        (MarketDataMode::PreferEvents, FactsView::Candles(_)) => if !capabilities.supports_candles {
            Err(ProviderError::PreferEventsUnsatisfiable)
        } else {
            Ok(())
        },
        _ => Ok(()),
    }
}

/// Check that the kind of data returned answers the requested mode.
pub fn validate_market_data_mode(
    dataset: &MarketDataFacts,
    requested_mode: MarketDataMode,
    capabilities: &DataSourceCapabilities,
) -> (result: Result<(), ProviderError>)
    ensures
        result == mode_check(dataset@, requested_mode, *capabilities),
{
    match (requested_mode, dataset) {
        (MarketDataMode::Candles, MarketDataFacts::Events(_)) => Err(
            ProviderError::EventsForCandleRequest,
        ),
        (MarketDataMode::Events, MarketDataFacts::Candles(_)) => Err(
            ProviderError::CandlesForEventRequest,
        ),
        (MarketDataMode::PreferCandles, MarketDataFacts::Events(_)) => if !capabilities.supports_events {
            Err(ProviderError::PreferCandlesUnsatisfiable)
        } else {
            Ok(())
        },
        (MarketDataMode::PreferEvents, MarketDataFacts::Candles(_)) => if !capabilities.supports_candles {
            Err(ProviderError::PreferEventsUnsatisfiable)
        } else {
            Ok(())
        },
        _ => Ok(()),
    }
}

pub open spec fn unordered_at(candles: Seq<CandleFacts>, k: int) -> bool {
    1 <= k < candles.len() && candles[k].timestamp <= candles[k - 1].timestamp
}

pub open spec fn invalid_at(candles: Seq<CandleFacts>, k: int) -> bool {
    0 <= k < candles.len() && !candles[k].valid
}

/// Index of the first candle not later than its predecessor.
pub open spec fn first_unordered(candles: Seq<CandleFacts>) -> Option<int> {
    if exists|k: int| #[trigger] unordered_at(candles, k) {
        Some(
            choose|k: int|
                #[trigger] unordered_at(candles, k) && forall|m: int|
                    0 <= m < k ==> !#[trigger] unordered_at(candles, m),
        )
    } else {
        None
    }
}

/// Index of the first invalid candle.
pub open spec fn first_invalid(candles: Seq<CandleFacts>) -> Option<int> {
    if exists|k: int| #[trigger] invalid_at(candles, k) {
        Some(
            choose|k: int|
                #[trigger] invalid_at(candles, k) && forall|m: int|
                    0 <= m < k ==> !#[trigger] invalid_at(candles, m),
        )
    } else {
        None
    }
}

/// The first failure among candles: the first pair out of order, else the
/// first invalid candle.
pub open spec fn candle_set_check(candles: Seq<CandleFacts>) -> Result<(), ProviderError> {
    match first_unordered(candles) {
        Some(k) => Err(ProviderError::CandlesNotIncreasing { index: k as usize }),
        None => match first_invalid(candles) {
            Some(k) => Err(ProviderError::InvalidCandle { index: k as usize }),
            None => Ok(()),
        },
    }
}

proof fn lemma_first_unordered(candles: Seq<CandleFacts>, k: int)
    requires
        unordered_at(candles, k),
        forall|m: int| 0 <= m < k ==> !#[trigger] unordered_at(candles, m),
    ensures
        first_unordered(candles) == Some(k),
{
    let w = choose|w: int|
        #[trigger] unordered_at(candles, w) && forall|m: int| 0 <= m < w ==> !#[trigger] unordered_at(candles, m);
    if w < k {
    } else if w > k {
        assert(!unordered_at(candles, k));
    }
}

proof fn lemma_first_invalid(candles: Seq<CandleFacts>, k: int)
    requires
        invalid_at(candles, k),
        forall|m: int| 0 <= m < k ==> !#[trigger] invalid_at(candles, m),
    ensures
        first_invalid(candles) == Some(k),
{
    let w = choose|w: int|
        #[trigger] invalid_at(candles, w) && forall|m: int| 0 <= m < w ==> !#[trigger] invalid_at(candles, m);
    if w < k {
    } else if w > k {
        assert(!invalid_at(candles, k));
    }
}

/// What is wrong with event `k`, given the event before it: its own
/// validity first, then its order against its predecessor.
pub open spec fn event_problem(
    events: Seq<EventFacts>,
    k: int,
    capabilities: DataSourceCapabilities,
) -> Option<ProviderError> {
    if !events[k].valid {
        Some(ProviderError::InvalidEvent { index: k as usize })
    } else if k == 0 {
        None
    } else if events[k].timestamp < events[k - 1].timestamp {
        Some(ProviderError::EventsOutOfOrder { index: k as usize })
    } else if events[k].timestamp == events[k - 1].timestamp {
        if events[k].sequence <= events[k - 1].sequence {
            Some(ProviderError::SequenceNotIncreasing { index: k as usize })
        } else {
            None
        }
    } else if capabilities.supports_sequence_guarantees && events[k].sequence == 0 {
        Some(ProviderError::MissingSequence { index: k as usize })
    } else {
        None
    }
}

/// The problem of the first event that has one.
pub open spec fn event_set_check(
    events: Seq<EventFacts>,
    capabilities: DataSourceCapabilities,
) -> Result<(), ProviderError> {
    if exists|k: int| 0 <= k < events.len() && #[trigger] event_problem(events, k, capabilities) is Some {
        let k = choose|k: int|
            0 <= k < events.len() && #[trigger] event_problem(events, k, capabilities) is Some
                && forall|m: int| 0 <= m < k ==> #[trigger] event_problem(events, m, capabilities) is None;
        Err(event_problem(events, k, capabilities)->0)
    } else {
        Ok(())
    }
}

pub open spec fn set_check(
    dataset: FactsView,
    capabilities: DataSourceCapabilities,
) -> Result<(), ProviderError> {
    match dataset {
        FactsView::Candles(c) => candle_set_check(c),
        FactsView::Events(e) => event_set_check(e, capabilities),
    }
}

/// Check a loaded dataset: candles strictly increasing in time and valid;
/// events valid, in time order, with strictly increasing sequences within a
/// timestamp, and with nonzero sequences where the source promises them.
pub fn validate_market_data_set(
    dataset: &MarketDataFacts,
    capabilities: &DataSourceCapabilities,
) -> (result: Result<(), ProviderError>)
    ensures
        result == set_check(dataset@, *capabilities),
{
    match dataset {
        MarketDataFacts::Candles(c) => check_candle_set(c.as_slice()),
        MarketDataFacts::Events(e) => check_event_set(e.as_slice(), capabilities),
    }
}

fn check_candle_set(candles: &[CandleFacts]) -> (result: Result<(), ProviderError>)
    ensures
        result == candle_set_check(candles@),
{
    let n = candles.len();
    let mut k: usize = 1;
    while k < n
        invariant
            n == candles@.len(),
            1 <= k,
            forall|m: int| 0 <= m < k ==> !#[trigger] unordered_at(candles@, m),
        decreases n - k,
    {
        if candles[k].timestamp <= candles[k - 1].timestamp {
            proof {
                lemma_first_unordered(candles@, k as int);
            }
            return Err(ProviderError::CandlesNotIncreasing { index: k });
        }
        k = k + 1;
    }
    assert(!exists|m: int| #[trigger] unordered_at(candles@, m));
    let mut j: usize = 0;
    while j < n
        invariant
            n == candles@.len(),
            j <= n,
            forall|m: int| 0 <= m < j ==> !#[trigger] invalid_at(candles@, m),
            first_unordered(candles@) is None,
        decreases n - j,
    {
        if !candles[j].valid {
            proof {
                lemma_first_invalid(candles@, j as int);
            }
            return Err(ProviderError::InvalidCandle { index: j });
        }
        j = j + 1;
    }
    assert(!exists|m: int| #[trigger] invalid_at(candles@, m));
    Ok(())
}

fn event_problem_at(
    events: &[EventFacts],
    k: usize,
    capabilities: &DataSourceCapabilities,
) -> (problem: Option<ProviderError>)
    requires
        k < events@.len(),
    ensures
        problem == event_problem(events@, k as int, *capabilities),
{
    let e = events[k];
    if !e.valid {
        return Some(ProviderError::InvalidEvent { index: k });
    }
    if k == 0 {
        return None;
    }
    let prev = events[k - 1];
    if e.timestamp < prev.timestamp {
        Some(ProviderError::EventsOutOfOrder { index: k })
    } else if e.timestamp == prev.timestamp {
        if e.sequence <= prev.sequence {
            Some(ProviderError::SequenceNotIncreasing { index: k })
        } else {
            None
        }
    } else if capabilities.supports_sequence_guarantees && e.sequence == 0 {
        Some(ProviderError::MissingSequence { index: k })
    } else {
        None
    }
}

fn check_event_set(
    events: &[EventFacts],
    capabilities: &DataSourceCapabilities,
) -> (result: Result<(), ProviderError>)
    ensures
        result == event_set_check(events@, *capabilities),
{
    let n = events.len();
    let mut k: usize = 0;
    while k < n
        invariant
            n == events@.len(),
            k <= n,
            forall|m: int| 0 <= m < k ==> #[trigger] event_problem(events@, m, *capabilities) is None,
        decreases n - k,
    {
        let problem = event_problem_at(events, k, capabilities);
        match problem {
            Some(err) => {
                proof {
                    let w = choose|w: int|
                        0 <= w < events@.len() && #[trigger] event_problem(events@, w, *capabilities) is Some
                            && forall|m: int| 0 <= m < w ==> #[trigger] event_problem(events@, m, *capabilities) is None;
                    assert(event_problem(events@, k as int, *capabilities) is Some);
                    if w < k {
                    } else if w > k {
                        assert(event_problem(events@, k as int, *capabilities) is None);
                    }
                }
                return Err(err);
            },
            None => {},
        }
        k = k + 1;
    }
    Ok(())
}

/// `t` lies within the requested bounds (both inclusive).
pub open spec fn in_range(t: i64, start: Option<i64>, end: Option<i64>) -> bool {
    &&& start matches Some(s) ==> t >= s
    &&& end matches Some(e) ==> t <= e
}

/// Indices of the times within the bounds, in order.
pub open spec fn indices_in_range(times: Seq<i64>, start: Option<i64>, end: Option<i64>) -> Seq<usize>
    decreases times.len(),
{
    if times.len() == 0 {
        Seq::empty()
    } else {
        let prev = indices_in_range(times.drop_last(), start, end);
        if in_range(times.last(), start, end) {
            prev.push((times.len() - 1) as usize)
        } else {
            prev
        }
    }
}

/// The first `limit` entries, or all of them without a limit.
pub open spec fn limited(s: Seq<usize>, limit: Option<usize>) -> Seq<usize> {
    match limit {
        Some(l) => if l < s.len() {
            s.take(l as int)
        } else {
            s
        },
        None => s,
    }
}

pub open spec fn fact_times(dataset: FactsView) -> Seq<i64> {
    match dataset {
        FactsView::Candles(c) => Seq::new(c.len(), |i: int| c[i].timestamp),
        FactsView::Events(e) => Seq::new(e.len(), |i: int| e[i].timestamp),
    }
}

pub open spec fn selection(
    dataset: FactsView,
    start: Option<i64>,
    end: Option<i64>,
    limit: Option<usize>,
) -> Seq<usize> {
    limited(indices_in_range(fact_times(dataset), start, end), limit)
}

fn time_at(dataset: &MarketDataFacts, i: usize) -> (t: i64)
    requires
        i < facts_len(dataset@),
    ensures
        t == fact_times(dataset@)[i as int],
{
    match dataset {
        MarketDataFacts::Candles(c) => c[i].timestamp,
        MarketDataFacts::Events(e) => e[i].timestamp,
    }
}

/// Keep the entries whose time lies within `[start, end]`, at most `limit`
/// of them, in their original order; the indices of the kept entries are
/// returned. Nothing kept is an error.
pub fn filter_market_data(
    dataset: &MarketDataFacts,
    start: Option<i64>,
    end: Option<i64>,
    limit: Option<usize>,
) -> (result: Result<Vec<usize>, ProviderError>)
    ensures
        match result {
            Ok(kept) => kept@ == selection(dataset@, start, end, limit) && kept@.len() > 0,
            Err(e) => e == ProviderError::EmptyRange && selection(dataset@, start, end, limit).len()
                == 0,
        },
{
    let n = dataset.len();
    let ghost times = fact_times(dataset@);
    let mut kept: Vec<usize> = Vec::new();
    let mut j: usize = 0;
    while j < n
        invariant
            n == times.len(),
            times == fact_times(dataset@),
            n == facts_len(dataset@),
            j <= n,
            kept@ == limited(indices_in_range(times.subrange(0, j as int), start, end), limit),
        decreases n - j,
    {
        let ghost before = times.subrange(0, j as int);
        let ghost after = times.subrange(0, j as int + 1);
        proof {
            assert(after.drop_last() =~= before);
        }
        let t = time_at(dataset, j);
        let inside = match start {
            Some(s) => t >= s,
            None => true,
        } && match end {
            Some(e) => t <= e,
            None => true,
        };
        if inside {
            let room = match limit {
                Some(l) => kept.len() < l,
                None => true,
            };
            proof {
                let full = indices_in_range(before, start, end);
                assert(indices_in_range(after, start, end) == full.push(j));
                match limit {
                    Some(l) => {
                        if l < full.len() {
                            assert(full.push(j).take(l as int) =~= full.take(l as int));
                        } else if l == full.len() {
                            assert(full.push(j).take(l as int) =~= full);
                        }
                    },
                    None => {},
                }
            }
            if room {
                kept.push(j);
            }
        }
        j = j + 1;
    }
    proof {
        assert(times.subrange(0, n as int) =~= times);
    }
    if kept.len() == 0 {
        Err(ProviderError::EmptyRange)
    } else {
        Ok(kept)
    }
}

/// Every kept index points at an entry within the bounds, and kept indices
/// keep their original order.
pub proof fn law_filter_keeps_order_and_range(
    times: Seq<i64>,
    start: Option<i64>,
    end: Option<i64>,
    limit: Option<usize>,
)
    requires
        times.len() <= usize::MAX,
    ensures
        ({
            let kept = limited(indices_in_range(times, start, end), limit);
            &&& forall|k: int| 0 <= k < kept.len() ==> #[trigger] kept[k] < times.len()
            &&& forall|k: int| 0 <= k < kept.len() ==> in_range(times[#[trigger] kept[k] as int], start, end)
            &&& forall|a: int, b: int| 0 <= a < b < kept.len() ==> #[trigger] kept[a] < #[trigger] kept[b]
        }),
{
    lemma_indices_in_range(times, start, end);
}

proof fn lemma_indices_in_range(times: Seq<i64>, start: Option<i64>, end: Option<i64>)
    requires
        times.len() <= usize::MAX,
    ensures
        ({
            let all = indices_in_range(times, start, end);
            &&& forall|k: int| 0 <= k < all.len() ==> #[trigger] all[k] < times.len()
            &&& forall|k: int| 0 <= k < all.len() ==> in_range(times[#[trigger] all[k] as int], start, end)
            &&& forall|a: int, b: int| 0 <= a < b < all.len() ==> #[trigger] all[a] < #[trigger] all[b]
        }),
    decreases times.len(),
{
    if times.len() > 0 {
        let prefix = times.drop_last();
        lemma_indices_in_range(prefix, start, end);
        let prev = indices_in_range(prefix, start, end);
        assert forall|k: int| 0 <= k < prev.len() implies in_range(times[#[trigger] prev[k] as int], start, end) by {
            assert(times[prev[k] as int] == prefix[prev[k] as int]);
        }
    }
}


/// A dataset together with where it came from.
#[derive(Clone, Debug)]
pub struct LoadedMarketData {
    pub dataset: MarketDataFacts,
    pub metadata: DataSourceMetadata,
}

pub open spec fn timeframe_mismatch(requested: Option<String>, returned: Option<String>) -> bool {
    requested matches Some(t) && returned matches Some(r) && r@ != t@
}

/// Acceptance of a loaded dataset for a request, in the order the checks
/// are made: the request itself, the instrument, the timeframe (when both
/// sides name one), the data mode, the dataset, and the declared schema.
#[verifier::opaque]
pub open spec fn acceptance_check(
    dataset: FactsView,
    instrument: String,
    timeframe: Option<String>,
    schema: Option<SourceSchema>,
    request: MarketDataRequest,
    capabilities: DataSourceCapabilities,
) -> Result<(), ProviderError> {
    if request_check(request) is Err {
        request_check(request)
    } else if instrument@ != request.symbol@ {
        Err(ProviderError::InstrumentMismatch)
    } else if timeframe_mismatch(request.timeframe, timeframe) {
        Err(ProviderError::TimeframeMismatch)
    } else if mode_check(dataset, request.mode, capabilities) is Err {
        mode_check(dataset, request.mode, capabilities)
    } else if set_check(dataset, capabilities) is Err {
        set_check(dataset, capabilities)
    } else {
        match schema {
            Some(s) => schema_check(s, dataset),
            None => Ok(()),
        }
    }
}

/// Accept a dataset that a source returned for a request.
pub fn validate_loaded(
    dataset: &MarketDataFacts,
    instrument: &String,
    timeframe: &Option<String>,
    schema: &Option<SourceSchema>,
    request: &MarketDataRequest,
    capabilities: &DataSourceCapabilities,
) -> (result: Result<(), ProviderError>)
    ensures
        result == acceptance_check(
            dataset@,
            *instrument,
            *timeframe,
            *schema,
            *request,
            *capabilities,
        ),
{
    reveal(acceptance_check);
    match request.validate() {
        Err(e) => return Err(e),
        Ok(()) => {},
    }
    if !(*instrument == request.symbol) {
        return Err(ProviderError::InstrumentMismatch);
    }
    match (&request.timeframe, timeframe) {
        (Some(t), Some(r)) => if !(*r == *t) {
            return Err(ProviderError::TimeframeMismatch);
        },
        _ => {},
    }
    match validate_market_data_mode(dataset, request.mode, capabilities) {
        Err(e) => return Err(e),
        Ok(()) => {},
    }
    match validate_market_data_set(dataset, capabilities) {
        Err(e) => return Err(e),
        Ok(()) => {},
    }
    match schema {
        Some(s) => validate_schema_for_dataset(s, dataset),
        None => Ok(()),
    }
}

impl LoadedMarketData {
    /// Accept this dataset for a request, under the source's capabilities.
    pub fn validate(
        &self,
        request: &MarketDataRequest,
        capabilities: &DataSourceCapabilities,
    ) -> (result: Result<(), ProviderError>)
        ensures
            result == acceptance_check(
                self.dataset@,
                self.metadata.instrument,
                self.metadata.timeframe,
                self.metadata.source_schema,
                *request,
                *capabilities,
            ),
    {
        validate_loaded(
            &self.dataset,
            &self.metadata.instrument,
            &self.metadata.timeframe,
            &self.metadata.source_schema,
            request,
            capabilities,
        )
    }
}

/// The entries of a dataset at the given indices, in that order.
pub open spec fn subset(dataset: FactsView, indices: Seq<usize>) -> FactsView {
    match dataset {
        FactsView::Candles(c) => FactsView::Candles(
            Seq::new(indices.len(), |k: int| c[indices[k] as int]),
        ),
        FactsView::Events(e) => FactsView::Events(
            Seq::new(indices.len(), |k: int| e[indices[k] as int]),
        ),
    }
}


impl MarketDataFacts {
    /// The entries at the given indices, in that order.
    pub fn select(&self, indices: &[usize]) -> (selected: MarketDataFacts)
        requires
            forall|k: int| 0 <= k < indices@.len() ==> #[trigger] indices@[k] < facts_len(self@),
        ensures
            selected@ == subset(self@, indices@),
    {
        let n = indices.len();
        match self {
            MarketDataFacts::Candles(c) => {
                let mut out: Vec<CandleFacts> = Vec::new();
                let mut k: usize = 0;
                while k < n
                    invariant
                        n == indices@.len(),
                        k <= n,
                        forall|m: int| 0 <= m < n ==> #[trigger] indices@[m] < c@.len(),
                        out@ == Seq::new(k as nat, |m: int| c@[indices@[m] as int]),
                    decreases n - k,
                {
                    out.push(c[indices[k]]);
                    k = k + 1;
                    assert(out@ =~= Seq::new(k as nat, |m: int| c@[indices@[m] as int]));
                }
                MarketDataFacts::Candles(out)
            },
            MarketDataFacts::Events(e) => {
                let mut out: Vec<EventFacts> = Vec::new();
                let mut k: usize = 0;
                while k < n
                    invariant
                        n == indices@.len(),
                        k <= n,
                        forall|m: int| 0 <= m < n ==> #[trigger] indices@[m] < e@.len(),
                        out@ == Seq::new(k as nat, |m: int| e@[indices@[m] as int]),
                    decreases n - k,
                {
                    out.push(e[indices[k]]);
                    k = k + 1;
                    assert(out@ =~= Seq::new(k as nat, |m: int| e@[indices@[m] as int]));
                }
                MarketDataFacts::Events(out)
            },
        }
    }
}

/// Range-filter a dataset for a request and accept what is left: the
/// indices of the kept entries, or the first error.
pub open spec fn load_check(
    dataset: FactsView,
    instrument: String,
    timeframe: Option<String>,
    schema: Option<SourceSchema>,
    request: MarketDataRequest,
    capabilities: DataSourceCapabilities,
) -> Result<Seq<usize>, ProviderError> {
    let kept = selection(dataset, request.start, request.end, request.limit);
    if kept.len() == 0 {
        Err(ProviderError::EmptyRange)
    } else {
        match acceptance_check(
            subset(dataset, kept),
            instrument,
            timeframe,
            schema,
            request,
            capabilities,
        ) {
            Err(e) => Err(e),
            Ok(()) => Ok(kept),
        }
    }
}

/// Filter a dataset to the request's range and limit, then accept the
/// entries that are left; returns their indices.
pub fn select_and_accept(
    dataset: &MarketDataFacts,
    instrument: &String,
    timeframe: &Option<String>,
    schema: &Option<SourceSchema>,
    request: &MarketDataRequest,
    capabilities: &DataSourceCapabilities,
) -> (result: Result<Vec<usize>, ProviderError>)
    ensures
        match result {
            Ok(kept) => load_check(
                dataset@,
                *instrument,
                *timeframe,
                *schema,
                *request,
                *capabilities,
            ) == Ok::<Seq<usize>, ProviderError>(kept@),
            Err(e) => load_check(
                dataset@,
                *instrument,
                *timeframe,
                *schema,
                *request,
                *capabilities,
            ) == Err::<Seq<usize>, ProviderError>(e),
        },
{
    let kept = match filter_market_data(dataset, request.start, request.end, request.limit) {
        Err(e) => return Err(e),
        Ok(kept) => kept,
    };
    let count = dataset.len();
    assert(forall|k: int| 0 <= k < kept@.len() ==> #[trigger] kept@[k] < facts_len(dataset@)) by {
        let times = fact_times(dataset@);
        assert(times.len() == count);
        law_filter_keeps_order_and_range(times, request.start, request.end, request.limit);
    }
    let selected = dataset.select(kept.as_slice());
    match validate_loaded(&selected, instrument, timeframe, schema, request, capabilities) {
        Err(e) => Err(e),
        Ok(()) => Ok(kept),
    }
}

/// A source of historical market data: its name and what it can serve.
/// Loading is not a method here, since a file-backed source reads files;
/// each source's `load` or `serve` decides what of its data a request gets.
pub trait HistoricalDataSource {
    fn name(&self) -> &str;

    fn capabilities(&self) -> DataSourceCapabilities;
}

/// A source that serves a dataset held in memory.
#[derive(Clone, Debug)]
pub struct InMemoryDataSource {
    pub name: String,
    pub loaded: LoadedMarketData,
}

pub open spec fn in_memory_capabilities(dataset: FactsView) -> DataSourceCapabilities {
    DataSourceCapabilities {
        supports_candles: dataset is Candles,
        supports_events: dataset is Events,
        supports_range_filtering: true,
        supports_sequence_guarantees: dataset is Events,
    }
}

impl HistoricalDataSource for InMemoryDataSource {
    fn name(&self) -> (name: &str)
        ensures
            name@ == self.name@,
    {
        self.name.as_str()
    }

    /// It serves exactly the kind of data it holds, range-filtered; events
    /// come with sequence guarantees.
    fn capabilities(&self) -> (capabilities: DataSourceCapabilities)
        ensures
            capabilities == in_memory_capabilities(self.loaded.dataset@),
    {
        let candles = match &self.loaded.dataset {
            MarketDataFacts::Candles(_) => true,
            MarketDataFacts::Events(_) => false,
        };
        DataSourceCapabilities {
            supports_candles: candles,
            supports_events: !candles,
            supports_range_filtering: true,
            supports_sequence_guarantees: !candles,
        }
    }
}

impl InMemoryDataSource {
    /// Serve a request: the indices of the held entries in the requested
    /// range, accepted under this source's capabilities.
    pub fn load(&self, request: &MarketDataRequest) -> (result: Result<Vec<usize>, ProviderError>)
        ensures
            match result {
                Ok(kept) => load_check(
                    self.loaded.dataset@,
                    self.loaded.metadata.instrument,
                    self.loaded.metadata.timeframe,
                    self.loaded.metadata.source_schema,
                    *request,
                    in_memory_capabilities(self.loaded.dataset@),
                ) == Ok::<Seq<usize>, ProviderError>(kept@),
                Err(e) => load_check(
                    self.loaded.dataset@,
                    self.loaded.metadata.instrument,
                    self.loaded.metadata.timeframe,
                    self.loaded.metadata.source_schema,
                    *request,
                    in_memory_capabilities(self.loaded.dataset@),
                ) == Err::<Seq<usize>, ProviderError>(e),
            },
    {
        let capabilities = self.capabilities();
        select_and_accept(
            &self.loaded.dataset,
            &self.loaded.metadata.instrument,
            &self.loaded.metadata.timeframe,
            &self.loaded.metadata.source_schema,
            request,
            &capabilities,
        )
    }
}

/// Where a file source reads its data.
#[derive(Debug)]
pub enum FileDataSourceSpec {
    CandleCsv { path: std::path::PathBuf },
    EventJson { path: std::path::PathBuf },
}

/// A source that reads one file.
#[derive(Debug)]
pub struct FileDataSource {
    pub name: String,
    pub instrument: String,
    pub timeframe: Option<String>,
    pub spec: FileDataSourceSpec,
    pub schema: Option<SourceSchema>,
}

pub open spec fn file_capabilities(spec: FileDataSourceSpec) -> DataSourceCapabilities {
    DataSourceCapabilities {
        supports_candles: spec is CandleCsv,
        supports_events: spec is EventJson,
        supports_range_filtering: true,
        supports_sequence_guarantees: false,
    }
}

impl HistoricalDataSource for FileDataSource {
    fn name(&self) -> (name: &str)
        ensures
            name@ == self.name@,
    {
        self.name.as_str()
    }

    /// A candle file serves candles and an event file events; both are
    /// range-filtered, neither promises sequence numbers.
    fn capabilities(&self) -> (capabilities: DataSourceCapabilities)
        ensures
            capabilities == file_capabilities(self.spec),
    {
        match &self.spec {
            FileDataSourceSpec::CandleCsv { .. } => DataSourceCapabilities {
                supports_candles: true,
                supports_events: false,
                supports_range_filtering: true,
                supports_sequence_guarantees: false,
            },
            FileDataSourceSpec::EventJson { .. } => DataSourceCapabilities {
                supports_candles: false,
                supports_events: true,
                supports_range_filtering: true,
                supports_sequence_guarantees: false,
            },
        }
    }
}

impl FileDataSource {
    /// The note recorded as the origin of data read by this source.
    pub fn origin_label(&self) -> (label: &'static str)
        ensures
            label@ == (if self.spec is CandleCsv {
                "file_csv"@
            } else {
                "file_json"@
            }),
    {
        match &self.spec {
            FileDataSourceSpec::CandleCsv { .. } => "file_csv",
            FileDataSourceSpec::EventJson { .. } => "file_json",
        }
    }

    /// Serve a request from the dataset read from this source's file: the
    /// indices of the entries in the requested range, accepted against this
    /// source's instrument, timeframe, schema and capabilities. The request
    /// itself is checked before anything is read (`MarketDataRequest::validate`).
    pub fn serve(&self, dataset: &MarketDataFacts, request: &MarketDataRequest) -> (result: Result<
        Vec<usize>,
        ProviderError,
    >)
        ensures
            match result {
                Ok(kept) => load_check(
                    dataset@,
                    self.instrument,
                    self.timeframe,
                    self.schema,
                    *request,
                    file_capabilities(self.spec),
                ) == Ok::<Seq<usize>, ProviderError>(kept@),
                Err(e) => load_check(
                    dataset@,
                    self.instrument,
                    self.timeframe,
                    self.schema,
                    *request,
                    file_capabilities(self.spec),
                ) == Err::<Seq<usize>, ProviderError>(e),
            },
    {
        let capabilities = self.capabilities();
        select_and_accept(
            dataset,
            &self.instrument,
            &self.timeframe,
            &self.schema,
            request,
            &capabilities,
        )
    }
}

} // verus!
