//! The convergence ledger: the observations that hooks asked to record and
//! the final state of the last turn, with its JSON form.
//!
//! The ledger is an object with the members `observations`, an array, and
//! `final`, which is absent until a turn has ended.

use crate::api::views;
use crate::json::{
    json_array, json_model, json_object, json_member, json_parse, json_set, json_str_at,
    json_string, json_u64, json_u64_at, parse_json, JsonModel,
};
use crate::text::owned;
use vstd::prelude::*;

verus! {

/// A signal that a hook gave after a tool.
#[derive(Debug)]
pub struct Observation {
    pub signal: String,
    pub reason: String,
    pub tool_iterations: usize,
}

/// The content of an [`Observation`].
pub struct ObservationView {
    pub signal: Seq<char>,
    pub reason: Seq<char>,
    pub tool_iterations: usize,
}

impl View for Observation {
    type V = ObservationView;

    open spec fn view(&self) -> ObservationView {
        ObservationView {
            signal: self.signal@,
            reason: self.reason@,
            tool_iterations: self.tool_iterations,
        }
    }
}

impl Clone for Observation {
    fn clone(&self) -> (r: Self)
        ensures
            r@ == self@,
    {
        Observation {
            signal: self.signal.clone(),
            reason: self.reason.clone(),
            tool_iterations: self.tool_iterations,
        }
    }
}

/// How the last turn ended.
#[derive(Debug)]
pub struct FinalState {
    pub reason: String,
    pub tool_iterations: usize,
    pub total_tokens: u64,
    pub timestamp: String,
}

/// The content of a [`FinalState`].
pub struct FinalView {
    pub reason: Seq<char>,
    pub tool_iterations: usize,
    pub total_tokens: u64,
    pub timestamp: Seq<char>,
}

impl View for FinalState {
    type V = FinalView;

    open spec fn view(&self) -> FinalView {
        FinalView {
            reason: self.reason@,
            tool_iterations: self.tool_iterations,
            total_tokens: self.total_tokens,
            timestamp: self.timestamp@,
        }
    }
}

/// The ledger.
#[derive(Debug)]
pub struct ConvergenceState {
    pub observations: Vec<Observation>,
    pub final_state: Option<FinalState>,
}

/// The content of a [`ConvergenceState`].
pub struct LedgerView {
    pub observations: Seq<ObservationView>,
    pub final_state: Option<FinalView>,
}

impl View for ConvergenceState {
    type V = LedgerView;

    open spec fn view(&self) -> LedgerView {
        LedgerView {
            observations: views(self.observations@),
            final_state: match self.final_state {
                Some(f) => Some(f@),
                None => None,
            },
        }
    }
}

impl ObservationView {
    /// The JSON object of the observation.
    pub open spec fn json(self) -> JsonModel {
        JsonModel::empty_object().with("signal"@, JsonModel::String(self.signal)).with(
            "reason"@,
            JsonModel::String(self.reason),
        ).with("tool_iterations"@, JsonModel::Int(self.tool_iterations as int))
    }

    /// The observation that a JSON value stands for: an object with the
    /// strings `signal` and `reason` and the count `tool_iterations`.
    pub open spec fn of_json(m: JsonModel) -> Option<ObservationView> {
        match (
            m.at("signal"@).text(),
            m.at("reason"@).text(),
            m.at("tool_iterations"@).unsigned(),
        ) {
            (Some(signal), Some(reason), Some(n)) => if n <= usize::MAX {
                Some(ObservationView { signal, reason, tool_iterations: n as usize })
            } else {
                None
            },
            _ => None,
        }
    }
}

impl FinalView {
    /// The JSON object of the final state.
    pub open spec fn json(self) -> JsonModel {
        JsonModel::empty_object().with("reason"@, JsonModel::String(self.reason)).with(
            "tool_iterations"@,
            JsonModel::Int(self.tool_iterations as int),
        ).with("total_tokens"@, JsonModel::Int(self.total_tokens as int)).with(
            "timestamp"@,
            JsonModel::String(self.timestamp),
        )
    }

    /// The final state that a JSON value stands for.
    pub open spec fn of_json(m: JsonModel) -> Option<FinalView> {
        match (
            m.at("reason"@).text(),
            m.at("tool_iterations"@).unsigned(),
            m.at("total_tokens"@).unsigned(),
            m.at("timestamp"@).text(),
        ) {
            (Some(reason), Some(n), Some(total_tokens), Some(timestamp)) => if n <= usize::MAX {
                Some(FinalView { reason, tool_iterations: n as usize, total_tokens, timestamp })
            } else {
                None
            },
            _ => None,
        }
    }
}

/// The observations that the JSON values stand for, if each stands for one.
pub open spec fn observations_of(items: Seq<JsonModel>) -> Option<Seq<ObservationView>>
    decreases items.len(),
{
    if items.len() == 0 {
        Some(Seq::empty())
    } else {
        match (observations_of(items.drop_last()), ObservationView::of_json(items.last())) {
            (Some(rest), Some(last)) => Some(rest.push(last)),
            _ => None,
        }
    }
}

impl LedgerView {
    pub open spec fn empty() -> LedgerView {
        LedgerView { observations: Seq::empty(), final_state: None }
    }

    /// The JSON object of the ledger. The final state stands under the key
    /// `final`, and only where there is one.
    pub open spec fn json(self) -> JsonModel {
        let base = JsonModel::empty_object().with(
            "observations"@,
            JsonModel::Array(self.observations.map_values(|o: ObservationView| o.json())),
        );
        match self.final_state {
            Some(f) => base.with("final"@, f.json()),
            None => base,
        }
    }

    /// The ledger that a JSON value stands for: an object whose member
    /// `observations`, where present, is an array of observations, and whose
    /// member `final`, where present and not null, is a final state.
    pub open spec fn of_json(m: JsonModel) -> Option<LedgerView> {
        if !(m is Object) {
            None
        } else {
            let observations = match m.member("observations"@) {
                None => Some(Seq::empty()),
                Some(JsonModel::Array(items)) => observations_of(items),
                Some(_) => None,
            };
            let final_state = match m.member("final"@) {
                None => Some(None),
                Some(JsonModel::Null) => Some(None),
                Some(f) => match FinalView::of_json(f) {
                    Some(state) => Some(Some(state)),
                    None => None,
                },
            };
            match (observations, final_state) {
                (Some(observations), Some(final_state)) => Some(
                    LedgerView { observations, final_state },
                ),
                _ => None,
            }
        }
    }

    /// The ledger read from a file's text: what the text stands for, and the
    /// empty ledger where there is no text, it is no JSON, or it is no
    /// ledger.
    pub open spec fn load(text: Option<Seq<char>>) -> LedgerView {
        match text {
            Some(t) => match json_parse(t) {
                Some(m) => match Self::of_json(m) {
                    Some(ledger) => ledger,
                    None => Self::empty(),
                },
                None => Self::empty(),
            },
            None => Self::empty(),
        }
    }

    /// The ledger with more observations at its end.
    pub open spec fn appended(self, more: Seq<ObservationView>) -> LedgerView {
        LedgerView { observations: self.observations + more, ..self }
    }

    /// The ledger with the final state set.
    pub open spec fn finished(self, state: FinalView) -> LedgerView {
        LedgerView { final_state: Some(state), ..self }
    }
}

/// Appending in two steps is appending what the two steps append, in order;
/// nothing that was recorded is lost or moved.
pub proof fn lemma_observations_append(
    ledger: LedgerView,
    first: Seq<ObservationView>,
    second: Seq<ObservationView>,
)
    ensures
        ledger.appended(first).appended(second) == ledger.appended(first + second),
        ledger.appended(first).observations.take(ledger.observations.len() as int)
            == ledger.observations,
        ledger.appended(first).final_state == ledger.final_state,
        forall|state: FinalView|
            ledger.finished(state).observations == ledger.observations,
{
    assert((ledger.observations + first) + second =~= ledger.observations + (first + second));
    assert((ledger.observations + first).take(ledger.observations.len() as int)
        =~= ledger.observations);
}

/// The object of the ledger has its final state under `final`, and no member
/// `final_state`.
pub proof fn lemma_final_key(ledger: LedgerView)
    ensures
        ledger.json().member("final_state"@) is None,
        ledger.final_state matches Some(f) ==> ledger.json().member("final"@) == Some(f.json()),
        ledger.final_state is None ==> ledger.json().member("final"@) is None,
{
    reveal_strlit("final_state");
    reveal_strlit("final");
    reveal_strlit("observations");
    assert("final_state"@.len() == 11);
    assert("final"@.len() == 5);
    assert("observations"@.len() == 12);
}

/// The keys of an observation and of a final state are different texts.
proof fn lemma_keys_differ()
    ensures
        "signal"@ != "reason"@,
        "signal"@ != "tool_iterations"@,
        "reason"@ != "tool_iterations"@,
        "reason"@ != "total_tokens"@,
        "reason"@ != "timestamp"@,
        "tool_iterations"@ != "total_tokens"@,
        "tool_iterations"@ != "timestamp"@,
        "total_tokens"@ != "timestamp"@,
        "observations"@ != "final"@,
{
    reveal_strlit("signal");
    reveal_strlit("reason");
    reveal_strlit("tool_iterations");
    reveal_strlit("total_tokens");
    reveal_strlit("timestamp");
    reveal_strlit("observations");
    reveal_strlit("final");
    assert("signal"@[0] != "reason"@[0]);
    assert("signal"@.len() == 6);
    assert("reason"@.len() == 6);
    assert("tool_iterations"@.len() == 15);
    assert("total_tokens"@.len() == 12);
    assert("timestamp"@.len() == 9);
    assert("observations"@.len() == 12);
    assert("final"@.len() == 5);
}

/// Reading the JSON of an observation gives the observation back.
pub proof fn lemma_observation_round_trip(o: ObservationView)
    ensures
        ObservationView::of_json(o.json()) == Some(o),
{
    lemma_keys_differ();
}

/// Reading the JSON of a final state gives the final state back.
pub proof fn lemma_final_round_trip(f: FinalView)
    ensures
        FinalView::of_json(f.json()) == Some(f),
        !(f.json() is Null),
{
    lemma_keys_differ();
}

proof fn lemma_observations_round_trip(list: Seq<ObservationView>)
    ensures
        observations_of(list.map_values(|o: ObservationView| o.json())) == Some(list),
    decreases list.len(),
{
    let items = list.map_values(|o: ObservationView| o.json());
    if list.len() > 0 {
        lemma_observations_round_trip(list.drop_last());
        assert(items.drop_last() =~= list.drop_last().map_values(|o: ObservationView| o.json()));
        lemma_observation_round_trip(list.last());
        assert(list.drop_last().push(list.last()) =~= list);
    } else {
        assert(list =~= Seq::<ObservationView>::empty());
    }
}

/// What is written is what is read: the ledger that the JSON of a ledger
/// stands for is that ledger, with every observation in its place and the
/// final state as it was.
pub proof fn lemma_ledger_round_trip(ledger: LedgerView)
    ensures
        LedgerView::of_json(ledger.json()) == Some(ledger),
{
    lemma_keys_differ();
    lemma_observations_round_trip(ledger.observations);
    match ledger.final_state {
        Some(f) => {
            lemma_final_round_trip(f);
        },
        None => {},
    }
}

/// `Value::as_array`: the items of an array, `None` for every other value.
pub assume_specification<'a>[ serde_json::Value::as_array ](v: &'a serde_json::Value) -> (r:
    Option<&'a Vec<serde_json::Value>>)
    ensures
        match r {
            Some(items) => json_model(*v) == JsonModel::Array(
                items@.map_values(|item: serde_json::Value| json_model(item)),
            ),
            None => !(json_model(*v) is Array),
        },
;

/// The text that `serde_json` writes for a value in its indented form.
pub uninterp spec fn json_render_pretty(m: JsonModel) -> Seq<char>;

/// `Value`'s alternate `Display`: the indented JSON text of the value, a
/// function of its content alone, named by [`json_render_pretty`].
#[verifier::external_body]
fn render_json_pretty(v: &serde_json::Value) -> (r: String)
    ensures
        r@ == json_render_pretty(json_model(*v)),
{
    format!("{:#}", v)
}

/// `chrono::Utc::now` and `DateTime::to_rfc3339`: the current time as an
/// RFC 3339 text. Nothing is claimed of the text. `chrono` panics where the
/// system clock stands before 1970.
#[verifier::external_body]
pub(crate) fn utc_timestamp() -> (r: String) {
    chrono::Utc::now().to_rfc3339()
}

impl Observation {
    /// The JSON object of the observation.
    pub fn to_json(&self) -> (r: serde_json::Value)
        ensures
            json_model(r) == self@.json(),
    {
        let mut obj = json_object();
        json_set(&mut obj, "signal", json_string(self.signal.clone()));
        json_set(&mut obj, "reason", json_string(self.reason.clone()));
        json_set(&mut obj, "tool_iterations", json_u64(self.tool_iterations as u64));
        obj
    }

    /// Reads an observation from its JSON object.
    pub fn from_json(v: &serde_json::Value) -> (r: Option<Observation>)
        ensures
            match r {
                Some(o) => ObservationView::of_json(json_model(*v)) == Some(o@),
                None => ObservationView::of_json(json_model(*v)) is None,
            },
    {
        let signal = json_str_at(v, "signal");
        let reason = json_str_at(v, "reason");
        let count = json_u64_at(v, "tool_iterations");
        match (signal, reason, count) {
            (Some(signal), Some(reason), Some(n)) => {
                if n <= usize::MAX as u64 {
                    Some(
                        Observation {
                            signal: owned(signal),
                            reason: owned(reason),
                            tool_iterations: n as usize,
                        },
                    )
                } else {
                    None
                }
            },
            _ => None,
        }
    }
}

impl FinalState {
    /// The JSON object of the final state.
    pub fn to_json(&self) -> (r: serde_json::Value)
        ensures
            json_model(r) == self@.json(),
    {
        let mut obj = json_object();
        json_set(&mut obj, "reason", json_string(self.reason.clone()));
        json_set(&mut obj, "tool_iterations", json_u64(self.tool_iterations as u64));
        json_set(&mut obj, "total_tokens", json_u64(self.total_tokens));
        json_set(&mut obj, "timestamp", json_string(self.timestamp.clone()));
        obj
    }

    /// Reads a final state from its JSON object.
    pub fn from_json(v: &serde_json::Value) -> (r: Option<FinalState>)
        ensures
            match r {
                Some(f) => FinalView::of_json(json_model(*v)) == Some(f@),
                None => FinalView::of_json(json_model(*v)) is None,
            },
    {
        let reason = json_str_at(v, "reason");
        let count = json_u64_at(v, "tool_iterations");
        let total = json_u64_at(v, "total_tokens");
        let timestamp = json_str_at(v, "timestamp");
        match (reason, count, total, timestamp) {
            (Some(reason), Some(n), Some(total_tokens), Some(timestamp)) => {
                if n <= usize::MAX as u64 {
                    Some(
                        FinalState {
                            reason: owned(reason),
                            tool_iterations: n as usize,
                            total_tokens,
                            timestamp: owned(timestamp),
                        },
                    )
                } else {
                    None
                }
            },
            _ => None,
        }
    }
}

fn read_observations(items: &Vec<serde_json::Value>) -> (r: Option<Vec<Observation>>)
    ensures
        match r {
            Some(list) => observations_of(
                items@.map_values(|item: serde_json::Value| json_model(item)),
            ) == Some(views(list@)),
            None => observations_of(items@.map_values(|item: serde_json::Value| json_model(item)))
                is None,
        },
{
    let ghost models = items@.map_values(|item: serde_json::Value| json_model(item));
    let mut list: Vec<Observation> = Vec::new();
    let mut i: usize = 0;
    assert(models.take(0) =~= Seq::<JsonModel>::empty());
    assert(views(list@) =~= Seq::<ObservationView>::empty());
    while i < items.len()
        invariant
            i <= items.len(),
            models == items@.map_values(|item: serde_json::Value| json_model(item)),
            observations_of(models.take(i as int)) == Some(views(list@)),
        decreases items.len() - i,
    {
        assert(models.take(i + 1).drop_last() =~= models.take(i as int));
        assert(models.take(i + 1).last() == json_model(items@[i as int]));
        match Observation::from_json(&items[i]) {
            Some(o) => {
                let ghost before = list@;
                list.push(o);
                assert(views(list@) =~= views(before).push(o@));
            },
            None => {
                proof {
                    lemma_observations_prefix_fails(models, i + 1);
                }
                return None;
            },
        }
        i = i + 1;
    }
    assert(models.take(items@.len() as int) =~= models);
    Some(list)
}

/// Where a prefix of the values holds one that is no observation, the values
/// stand for no list of observations.
proof fn lemma_observations_prefix_fails(items: Seq<JsonModel>, n: int)
    requires
        0 <= n <= items.len(),
        observations_of(items.take(n)) is None,
    ensures
        observations_of(items) is None,
    decreases items.len() - n,
{
    if n < items.len() {
        assert(items.take(n + 1).drop_last() =~= items.take(n));
        lemma_observations_prefix_fails(items, n + 1);
    } else {
        assert(items.take(n) =~= items);
    }
}

impl ConvergenceState {
    /// The empty ledger.
    pub fn new() -> (r: ConvergenceState)
        ensures
            r@ == LedgerView::empty(),
    {
        let r = ConvergenceState { observations: Vec::new(), final_state: None };
        assert(r@.observations =~= Seq::empty());
        r
    }

    /// Records more observations, behind those that are there.
    pub fn append_observations(&mut self, more: &Vec<Observation>)
        ensures
            final(self)@ == old(self)@.appended(views(more@)),
    {
        let mut i: usize = 0;
        assert(views(more@).take(0) =~= Seq::<ObservationView>::empty());
        assert(self@.observations + Seq::<ObservationView>::empty() =~= self@.observations);
        while i < more.len()
            invariant
                i <= more.len(),
                self.final_state == old(self).final_state,
                self@.observations == old(self)@.observations + views(more@).take(i as int),
            decreases more.len() - i,
        {
            let ghost before = self.observations@;
            self.observations.push(more[i].clone());
            assert(views(self.observations@) =~= old(self)@.observations + views(more@).take(
                i + 1,
            )) by {
                assert(views(self.observations@) =~= views(before).push(more@[i as int]@));
            }
            i = i + 1;
        }
        assert(views(more@).take(more@.len() as int) =~= views(more@));
    }

    /// Sets how the last turn ended.
    pub fn set_final(
        &mut self,
        reason: &str,
        tool_iterations: usize,
        total_tokens: u64,
        timestamp: String,
    )
        ensures
            final(self)@ == old(self)@.finished(
                FinalView { reason: reason@, tool_iterations, total_tokens, timestamp: timestamp@ },
            ),
    {
        self.final_state = Some(
            FinalState { reason: owned(reason), tool_iterations, total_tokens, timestamp },
        );
    }

    /// The JSON object of the ledger.
    pub fn to_json(&self) -> (r: serde_json::Value)
        ensures
            json_model(r) == self@.json(),
    {
        let mut items: Vec<serde_json::Value> = Vec::new();
        let mut i: usize = 0;
        while i < self.observations.len()
            invariant
                i <= self.observations.len(),
                items@.len() == i,
                forall|k: int|
                    0 <= k < i ==> json_model(#[trigger] items@[k])
                        == self.observations@[k]@.json(),
            decreases self.observations.len() - i,
        {
            items.push(self.observations[i].to_json());
            i = i + 1;
        }
        assert(items@.map_values(|v: serde_json::Value| json_model(v))
            =~= self@.observations.map_values(|o: ObservationView| o.json()));
        let mut obj = json_object();
        json_set(&mut obj, "observations", json_array(items));
        match &self.final_state {
            Some(f) => {
                json_set(&mut obj, "final", f.to_json());
            },
            None => {},
        }
        obj
    }

    /// The text of the ledger's file: its JSON object, indented.
    pub fn to_text(&self) -> (r: String)
        ensures
            r@ == json_render_pretty(self@.json()),
    {
        render_json_pretty(&self.to_json())
    }

    /// Reads a ledger from its JSON object.
    pub fn from_json(v: &serde_json::Value) -> (r: Option<ConvergenceState>)
        ensures
            match r {
                Some(ledger) => LedgerView::of_json(json_model(*v)) == Some(ledger@),
                None => LedgerView::of_json(json_model(*v)) is None,
            },
    {
        if !v.is_object() {
            return None;
        }
        let observations = match json_member(v, "observations") {
            None => {
                let empty: Vec<Observation> = Vec::new();
                assert(views(empty@) =~= Seq::<ObservationView>::empty());
                empty
            },
            Some(member) => match member.as_array() {
                Some(items) => match read_observations(items) {
                    Some(list) => list,
                    None => {
                        return None;
                    },
                },
                None => {
                    return None;
                },
            },
        };
        let final_state = match json_member(v, "final") {
            None => None,
            Some(member) => {
                if member.is_null() {
                    None
                } else {
                    match FinalState::from_json(member) {
                        Some(state) => Some(state),
                        None => {
                            return None;
                        },
                    }
                }
            },
        };
        Some(ConvergenceState { observations, final_state })
    }

    /// Reads the ledger from the text of its file, `None` where the file
    /// could not be read. Whatever is no ledger gives the empty ledger.
    pub fn load(text: Option<&str>) -> (r: ConvergenceState)
        ensures
            r@ == LedgerView::load(
                match text {
                    Some(t) => Some(t@),
                    None => None,
                },
            ),
    {
        match text {
            Some(t) => match parse_json(t) {
                Ok(v) => match Self::from_json(&v) {
                    Some(ledger) => ledger,
                    None => Self::new(),
                },
                Err(_) => Self::new(),
            },
            None => Self::new(),
        }
    }
}




/// The text of the ledger's file after the observations `more` were added
/// to the ledger that the file holds now (`current`; `None` where there is
/// no file that can be read).
pub fn write_observations(current: Option<&str>, more: &Vec<Observation>) -> (text: String)
    ensures
        text@ == json_render_pretty(
            LedgerView::load(
                match current {
                    Some(t) => Some(t@),
                    None => None,
                },
            ).appended(views(more@)).json(),
        ),
{
    let mut ledger = ConvergenceState::load(current);
    ledger.append_observations(more);
    ledger.to_text()
}

/// The text of the ledger's file after the final state was set, with the
/// given time, in the ledger that the file holds now.
pub fn final_state_text(
    current: Option<&str>,
    reason: &str,
    tool_iterations: usize,
    total_tokens: u64,
    timestamp: String,
) -> (text: String)
    ensures
        text@ == json_render_pretty(
            LedgerView::load(
                match current {
                    Some(t) => Some(t@),
                    None => None,
                },
            ).finished(
                FinalView { reason: reason@, tool_iterations, total_tokens, timestamp: timestamp@ },
            ).json(),
        ),
{
    let mut ledger = ConvergenceState::load(current);
    ledger.set_final(reason, tool_iterations, total_tokens, timestamp);
    ledger.to_text()
}

/// The text of the ledger's file after the final state was set, with the
/// current time, in the ledger that the file holds now. The time is whatever
/// the clock says; all else is as [`final_state_text`] has it.
pub fn write_final_state(
    current: Option<&str>,
    reason: &str,
    tool_iterations: usize,
    total_tokens: u64,
) -> (text: String)
    ensures
        exists|timestamp: Seq<char>|
            text@ == json_render_pretty(
                LedgerView::load(
                    match current {
                        Some(t) => Some(t@),
                        None => None,
                    },
                ).finished(
                    FinalView { reason: reason@, tool_iterations, total_tokens, timestamp },
                ).json(),
            ),
{
    let timestamp = utc_timestamp();
    final_state_text(current, reason, tool_iterations, total_tokens, timestamp)
}

} // verus!
