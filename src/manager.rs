//! The subscription registry: topics, their subscriptions, and dispatch of one message.
use vstd::prelude::*;
use crate::filter::{
    contains_text, pattern_compiles, pattern_matches, ContainsFilter, FilterError, FunctionFilter,
    MessageFilter, RegexFilter,
};

verus! {

/// The filter of one subscription: a closed set of built-in kinds and one caller predicate.
pub enum Filter<F: Fn(&str) -> bool> {
    Contains(ContainsFilter),
    Pattern(RegexFilter),
    Predicate(FunctionFilter<F>),
}

impl<F: Fn(&str) -> bool> MessageFilter for Filter<F> {
    open spec fn well_formed(&self) -> bool {
        match self {
            Filter::Predicate(p) => p.well_formed(),
            _ => true,
        }
    }

    open spec fn accepts(&self, message: Seq<char>) -> bool {
        match self {
            Filter::Contains(c) => c.accepts(message),
            Filter::Pattern(p) => p.accepts(message),
            Filter::Predicate(p) => p.accepts(message),
        }
    }

    fn matches(&self, message: &str) -> (r: bool) {
        match self {
            Filter::Contains(c) => c.matches(message),
            Filter::Pattern(p) => p.matches(message),
            Filter::Predicate(p) => p.matches(message),
        }
    }
}

/// A failure reported by a subscription's callback.
#[derive(Debug)]
pub struct CallbackError {
    pub message: String,
}

/// Why a subscription could not be registered.
#[derive(Debug)]
pub enum SubscribeError {
    /// The broker rejected the subscribe for `topic`.
    SubscriptionError { topic: String, detail: String },
}

/// One registered interest in a topic: an optional filter and the callback to run on a match.
pub struct Subscription<F: Fn(&str) -> bool, C: Fn(String) -> Result<(), CallbackError>> {
    pub filter: Option<Filter<F>>,
    pub callback: C,
}

impl<F: Fn(&str) -> bool, C: Fn(String) -> Result<(), CallbackError>> Subscription<F, C> {
    /// The filter answers on every payload and the callback can be called on every payload.
    pub open spec fn well_formed(&self) -> bool {
        &&& (self.filter matches Some(f) ==> f.well_formed())
        &&& forall|s: String| #[trigger] self.callback.requires((s,))
    }

    /// Whether a payload passes this subscription's filter (no filter passes everything).
    pub open spec fn passes(&self, payload: Seq<char>) -> bool {
        match self.filter {
            Some(f) => f.accepts(payload),
            None => true,
        }
    }

    /// Whether `r` is an answer the callback may give on a payload equal to `payload`.
    pub open spec fn may_answer(&self, payload: Seq<char>, r: Result<(), CallbackError>) -> bool {
        exists|s: String| s@ == payload && #[trigger] self.callback.ensures((s,), r)
    }

    /// Runs the callback on `payload` when the filter passes it; `None` when it does not.
    pub fn handle_message(&self, payload: &str) -> (r: Option<Result<(), CallbackError>>)
        requires
            self.well_formed(),
        ensures
            r is Some <==> self.passes(payload@),
            r matches Some(out) ==> self.may_answer(payload@, out),
    {
        let should_process = match &self.filter {
            Some(f) => f.matches(payload),
            None => true,
        };
        if should_process {
            let s = payload.to_owned();
            let out = (self.callback)(s);
            proof {
                assert(self.callback.ensures((s,), out));
            }
            Some(out)
        } else {
            None
        }
    }
}

/// The indices, in order, of the first `n` subscriptions that `payload` passes.
pub open spec fn selected<F: Fn(&str) -> bool, C: Fn(String) -> Result<(), CallbackError>>(
    subs: Seq<Subscription<F, C>>,
    payload: Seq<char>,
    n: int,
) -> Seq<int>
    decreases n,
{
    if n <= 0 {
        seq![]
    } else {
        let prev = selected(subs, payload, n - 1);
        if subs[n - 1].passes(payload) {
            prev.push(n - 1)
        } else {
            prev
        }
    }
}

/// What one dispatch did: which subscriptions ran, in order, and what each callback answered.
#[derive(Debug)]
pub struct DispatchReport {
    pub delivered: Vec<usize>,
    pub results: Vec<Result<(), CallbackError>>,
}

impl DispatchReport {
    /// This report is what dispatching `payload` on `topic` in `reg` gives: the subscriptions the
    /// payload passes, each once, in registration order, each with an answer its callback may give.
    pub open spec fn describes<F: Fn(&str) -> bool, C: Fn(String) -> Result<(), CallbackError>>(
        &self,
        reg: Map<Seq<char>, Seq<Subscription<F, C>>>,
        topic: Seq<char>,
        payload: Seq<char>,
    ) -> bool {
        let subs = subscriptions_on(reg, topic);
        &&& self.delivered@.len() == self.results@.len()
        &&& self.delivered@.map_values(|i: usize| i as int) == selected(subs, payload, subs.len() as int)
        &&& forall|k: int|
            0 <= k < self.delivered@.len() ==> subs[#[trigger] self.delivered@[k] as int].may_answer(
                payload,
                self.results@[k],
            )
    }

    /// How many callbacks failed.
    pub fn failure_count(&self) -> (r: usize)
        ensures
            r == failures_in(self.results@, self.results@.len() as int),
    {
        let mut count: usize = 0;
        let mut k: usize = 0;
        while k < self.results.len()
            invariant
                k <= self.results@.len(),
                count <= k,
                count == failures_in(self.results@, k as int),
            decreases self.results@.len() - k,
        {
            if self.results[k].is_err() {
                count = count + 1;
            }
            k = k + 1;
        }
        count
    }
}

/// The number of failures among the first `n` callback answers.
pub open spec fn failures_in(results: Seq<Result<(), CallbackError>>, n: int) -> nat
    decreases n,
{
    if n <= 0 {
        0
    } else {
        failures_in(results, n - 1) + if results[n - 1] is Err {
            1nat
        } else {
            0nat
        }
    }
}

/// A topic and its subscriptions in registration order.
struct TopicEntry<F: Fn(&str) -> bool, C: Fn(String) -> Result<(), CallbackError>> {
    topic: String,
    subscriptions: Vec<Subscription<F, C>>,
}

/// Owns the subscriptions of every topic; a topic appears once it has been subscribed at the broker.
pub struct MqttClientManager<F: Fn(&str) -> bool, C: Fn(String) -> Result<(), CallbackError>> {
    entries: Vec<TopicEntry<F, C>>,
    topics: Ghost<Map<Seq<char>, Seq<Subscription<F, C>>>>,
}

impl<F: Fn(&str) -> bool, C: Fn(String) -> Result<(), CallbackError>> View for MqttClientManager<F, C> {
    type V = Map<Seq<char>, Seq<Subscription<F, C>>>;

    closed spec fn view(&self) -> Self::V {
        self.topics@
    }
}

/// The subscriptions registered on `topic`, none for an unknown topic.
pub open spec fn subscriptions_on<F: Fn(&str) -> bool, C: Fn(String) -> Result<(), CallbackError>>(
    reg: Map<Seq<char>, Seq<Subscription<F, C>>>,
    topic: Seq<char>,
) -> Seq<Subscription<F, C>> {
    if reg.contains_key(topic) {
        reg[topic]
    } else {
        seq![]
    }
}

/// What `subscribe` makes of the registry: the subscription appended under its topic.
pub open spec fn with_subscription<F: Fn(&str) -> bool, C: Fn(String) -> Result<(), CallbackError>>(
    reg: Map<Seq<char>, Seq<Subscription<F, C>>>,
    topic: Seq<char>,
    sub: Subscription<F, C>,
) -> Map<Seq<char>, Seq<Subscription<F, C>>> {
    reg.insert(topic, subscriptions_on(reg, topic).push(sub))
}

impl<F: Fn(&str) -> bool, C: Fn(String) -> Result<(), CallbackError>> MqttClientManager<F, C> {
    /// Topics are unique, the ghost map holds exactly the entries, and every subscription is well formed.
    pub closed spec fn well_formed(&self) -> bool {
        &&& forall|i: int, j: int|
            0 <= i < j < self.entries@.len() ==> self.entries@[i].topic@ != self.entries@[j].topic@
        &&& forall|i: int|
            0 <= i < self.entries@.len() ==> {
                &&& #[trigger] self.topics@.contains_key(self.entries@[i].topic@)
                &&& self.topics@[self.entries@[i].topic@] == self.entries@[i].subscriptions@
            }
        &&& forall|t: Seq<char>|
            #[trigger] self.topics@.contains_key(t) ==> exists|i: int|
                0 <= i < self.entries@.len() && self.entries@[i].topic@ == t
        &&& forall|t: Seq<char>, k: int|
            self.topics@.contains_key(t) && 0 <= k < self.topics@[t].len() ==> #[trigger] self.topics@[t][k].well_formed()
    }

    /// An empty registry.
    pub fn new() -> (r: Self)
        ensures
            r.well_formed(),
            r@ == Map::<Seq<char>, Seq<Subscription<F, C>>>::empty(),
    {
        MqttClientManager { entries: Vec::new(), topics: Ghost(Map::empty()) }
    }

    fn position(&self, topic: &str) -> (r: Option<usize>)
        requires
            self.well_formed(),
        ensures
            r is Some <==> self@.contains_key(topic@),
            r matches Some(i) ==> i < self.entries@.len() && self.entries@[i as int].topic@ == topic@,
    {
        let wanted = topic.to_owned();
        let mut i: usize = 0;
        while i < self.entries.len()
            invariant
                self.well_formed(),
                wanted@ == topic@,
                i <= self.entries@.len(),
                forall|j: int| 0 <= j < i ==> self.entries@[j].topic@ != topic@,
            decreases self.entries@.len() - i,
        {
            if self.entries[i].topic == wanted {
                proof {
                    assert(self.topics@.contains_key(self.entries@[i as int].topic@));
                }
                return Some(i);
            }
            i = i + 1;
        }
        proof {
            if self.topics@.contains_key(topic@) {
                let j = choose|j: int| 0 <= j < self.entries@.len() && self.entries@[j].topic@ == topic@;
                assert(self.entries@[j].topic@ == topic@);
            }
        }
        None
    }

    /// Registers a subscription on `topic`. For a topic not yet known, `broker` is the outcome of
    /// the broker-level subscribe that `needs_broker_subscribe` asked for; it is not read otherwise.
    /// On a rejection the registry is left as it was.
    pub fn subscribe(
        &mut self,
        topic: String,
        filter: Option<Filter<F>>,
        callback: C,
        broker: Result<(), String>,
    ) -> (r: Result<(), SubscribeError>)
        requires
            old(self).well_formed(),
            (Subscription { filter, callback }).well_formed(),
        ensures
            final(self).well_formed(),
            r is Ok <==> (old(self)@.contains_key(topic@) || broker is Ok),
            r is Ok ==> final(self)@ == with_subscription(
                old(self)@,
                topic@,
                (Subscription { filter, callback }),
            ),
            r is Err ==> final(self)@ == old(self)@,
            r matches Err(SubscribeError::SubscriptionError { topic: t, detail: d }) ==> t@ == topic@
                && (broker matches Err(e) && d@ == e@),
    {
        let pos = self.position(topic.as_str());
        let sub = Subscription { filter, callback };
        let ghost g = sub;
        let ghost before = self.entries@;
        match pos {
            Some(i) => {
                let mut entry = self.entries.remove(i);
                let ghost old_subs = entry.subscriptions@;
                entry.subscriptions.push(sub);
                self.entries.insert(i, entry);
                self.topics = Ghost(self.topics@.insert(topic@, old_subs.push(g)));
                proof {
                    assert(self.entries@ =~= before.update(i as int, self.entries@[i as int]));
                    assert forall|t: Seq<char>| #[trigger] self.topics@.contains_key(t) implies exists|j: int|
                        0 <= j < self.entries@.len() && self.entries@[j].topic@ == t by {
                        if t != topic@ {
                            let j = choose|j: int| 0 <= j < before.len() && before[j].topic@ == t;
                            assert(self.entries@[j].topic@ == t);
                        } else {
                            assert(self.entries@[i as int].topic@ == t);
                        }
                    }
                    assert forall|t: Seq<char>, k: int|
                        self.topics@.contains_key(t) && 0 <= k < self.topics@[t].len() implies #[trigger] self.topics@[t][k].well_formed() by {
                        if t == topic@ && k == old_subs.len() {
                            assert(self.topics@[t][k] == g);
                        }
                    }
                }
                Ok(())
            },
            None => {
                match broker {
                    Ok(()) => {
                        let mut subs: Vec<Subscription<F, C>> = Vec::new();
                        subs.push(sub);
                        let ghost t0 = topic@;
                        self.entries.push(TopicEntry { topic, subscriptions: subs });
                        self.topics = Ghost(self.topics@.insert(t0, seq![g]));
                        proof {
                            assert(subscriptions_on(old(self)@, t0) == Seq::<Subscription<F, C>>::empty());
                            assert(seq![g] =~= Seq::<Subscription<F, C>>::empty().push(g));
                            let n = before.len() as int;
                            assert forall|t: Seq<char>| #[trigger] self.topics@.contains_key(t) implies exists|j: int|
                                0 <= j < self.entries@.len() && self.entries@[j].topic@ == t by {
                                if t != t0 {
                                    let j = choose|j: int| 0 <= j < before.len() && before[j].topic@ == t;
                                    assert(self.entries@[j].topic@ == t);
                                } else {
                                    assert(self.entries@[n].topic@ == t);
                                }
                            }
                            assert forall|a: int, b: int|
                                0 <= a < b < self.entries@.len() implies self.entries@[a].topic@ != self.entries@[b].topic@ by {
                                if b == n {
                                    assert(self.topics@.contains_key(before[a].topic@));
                                }
                            }
                            assert forall|t: Seq<char>, k: int|
                                self.topics@.contains_key(t) && 0 <= k < self.topics@[t].len() implies #[trigger] self.topics@[t][k].well_formed() by {
                                if t == t0 {
                                    assert(self.topics@[t][k] == g);
                                }
                            }
                        }
                        Ok(())
                    },
                    Err(detail) => Err(SubscribeError::SubscriptionError { topic, detail }),
                }
            },
        }
    }

    /// Hands `payload` to every subscription on `topic` that it passes, in registration order.
    /// A failing callback does not stop the others; an unknown topic does nothing.
    pub fn handle_message(&self, topic: &str, payload: &str) -> (r: DispatchReport)
        requires
            self.well_formed(),
        ensures
            r.describes(self@, topic@, payload@),
    {
        let mut delivered: Vec<usize> = Vec::new();
        let mut results: Vec<Result<(), CallbackError>> = Vec::new();
        match self.position(topic) {
            None => {
                assert(delivered@.map_values(|i: usize| i as int) =~= Seq::<int>::empty());
            },
            Some(i) => {
                let subs = &self.entries[i].subscriptions;
                let ghost all = subs@;
                assert(all == subscriptions_on(self@, topic@));
                let mut j: usize = 0;
                while j < subs.len()
                    invariant
                        self.well_formed(),
                        all == subs@,
                        all == subscriptions_on(self@, topic@),
                        self@.contains_key(topic@),
                        j <= all.len(),
                        delivered@.len() == results@.len(),
                        delivered@.map_values(|x: usize| x as int) == selected(all, payload@, j as int),
                        forall|k: int| 0 <= k < delivered@.len() ==> #[trigger] delivered@[k] < j,
                        forall|k: int|
                            0 <= k < delivered@.len() ==> all[#[trigger] delivered@[k] as int].may_answer(
                                payload@,
                                results@[k],
                            ),
                    decreases all.len() - j,
                {
                    assert(all[j as int].well_formed());
                    let out = subs[j].handle_message(payload);
                    let ghost prev = delivered@;
                    match out {
                        Some(res) => {
                            delivered.push(j);
                            results.push(res);
                            assert(delivered@.map_values(|x: usize| x as int) =~= prev.map_values(
                                |x: usize| x as int,
                            ).push(j as int));
                        },
                        None => {},
                    }
                    j = j + 1;
                }
            },
        }
        DispatchReport { delivered, results }
    }

    /// A filter that passes the payloads containing `contains`.
    pub fn contains_filter(contains: &str) -> (r: Filter<F>)
        ensures
            r.well_formed(),
            forall|m: Seq<char>| r.accepts(m) == contains_text(m, contains@),
    {
        Filter::Contains(ContainsFilter(contains.to_owned()))
    }

    /// A filter that passes the payloads `pattern` matches; fails exactly when it does not compile.
    pub fn regex_filter(pattern: &str) -> (r: Result<Filter<F>, FilterError>)
        ensures
            r is Ok <==> pattern_compiles(pattern@),
            r matches Ok(f) ==> f.well_formed() && forall|m: Seq<char>|
                f.accepts(m) == pattern_matches(pattern@, m),
            r matches Err(FilterError::InvalidPattern { pattern: p }) ==> p@ == pattern@,
    {
        match RegexFilter::new(pattern) {
            Ok(re) => Ok(Filter::Pattern(re)),
            Err(e) => Err(e),
        }
    }

    /// A filter that passes the payloads on which `f` answers `true`.
    pub fn function_filter(f: F) -> (r: Filter<F>)
        ensures
            r == Filter::Predicate(FunctionFilter(f)),
    {
        Filter::Predicate(FunctionFilter(f))
    }

    /// Whether `topic` has been subscribed at the broker already.
    pub fn has_topic(&self, topic: &str) -> (r: bool)
        requires
            self.well_formed(),
        ensures
            r == self@.contains_key(topic@),
    {
        self.position(topic).is_some()
    }

    /// Whether registering on `topic` must first subscribe at the broker: only for a topic not yet known.
    pub fn needs_broker_subscribe(&self, topic: &str) -> (r: bool)
        requires
            self.well_formed(),
        ensures
            r == !self@.contains_key(topic@),
    {
        !self.has_topic(topic)
    }
}


/// The registry after a series of successful subscribes, each a topic and its subscription.
pub open spec fn after_subscribes<F: Fn(&str) -> bool, C: Fn(String) -> Result<(), CallbackError>>(
    reg: Map<Seq<char>, Seq<Subscription<F, C>>>,
    steps: Seq<(Seq<char>, Subscription<F, C>)>,
) -> Map<Seq<char>, Seq<Subscription<F, C>>>
    decreases steps.len(),
{
    if steps.len() == 0 {
        reg
    } else {
        with_subscription(after_subscribes(reg, steps.drop_last()), steps.last().0, steps.last().1)
    }
}

/// Dispatching on a topic with no subscriptions delivers to nobody.
pub proof fn lemma_unknown_topic_no_effect<F: Fn(&str) -> bool, C: Fn(String) -> Result<(), CallbackError>>(
    reg: Map<Seq<char>, Seq<Subscription<F, C>>>,
    topic: Seq<char>,
    payload: Seq<char>,
    report: DispatchReport,
)
    requires
        !reg.contains_key(topic),
        report.describes(reg, topic, payload),
    ensures
        report.delivered@.len() == 0,
        report.results@.len() == 0,
{
    assert(report.delivered@.map_values(|i: usize| i as int).len() == 0);
}

/// When every subscription passes the payload, all of them are delivered to, each once, in
/// registration order, whatever their callbacks answer.
pub proof fn lemma_all_pass_all_delivered<F: Fn(&str) -> bool, C: Fn(String) -> Result<(), CallbackError>>(
    subs: Seq<Subscription<F, C>>,
    payload: Seq<char>,
    n: int,
)
    requires
        0 <= n <= subs.len(),
        forall|i: int| 0 <= i < subs.len() ==> #[trigger] subs[i].passes(payload),
    ensures
        selected(subs, payload, n) == Seq::new(n as nat, |i: int| i),
    decreases n,
{
    if n > 0 {
        lemma_all_pass_all_delivered(subs, payload, n - 1);
        assert(selected(subs, payload, n) =~= Seq::new(n as nat, |i: int| i));
    } else {
        assert(selected(subs, payload, n) =~= Seq::new(n as nat, |i: int| i));
    }
}

/// When every subscription on the topic passes the payload, a dispatch runs each of them exactly
/// once, in registration order, each on the payload, whatever the callbacks answer.
pub proof fn lemma_all_pass_report<F: Fn(&str) -> bool, C: Fn(String) -> Result<(), CallbackError>>(
    reg: Map<Seq<char>, Seq<Subscription<F, C>>>,
    topic: Seq<char>,
    payload: Seq<char>,
    report: DispatchReport,
)
    requires
        report.describes(reg, topic, payload),
        forall|i: int|
            0 <= i < subscriptions_on(reg, topic).len() ==> #[trigger] subscriptions_on(reg, topic)[i].passes(payload),
    ensures
        report.delivered@.len() == subscriptions_on(reg, topic).len(),
        report.results@.len() == subscriptions_on(reg, topic).len(),
        forall|k: int| 0 <= k < report.delivered@.len() ==> #[trigger] report.delivered@[k] == k,
        forall|k: int|
            0 <= k < report.results@.len() ==> subscriptions_on(reg, topic)[k].may_answer(
                payload,
                #[trigger] report.results@[k],
            ),
{
    let subs = subscriptions_on(reg, topic);
    lemma_all_pass_all_delivered(subs, payload, subs.len() as int);
    let d = report.delivered@.map_values(|i: usize| i as int);
    assert(d.len() == subs.len());
    assert forall|k: int| 0 <= k < report.delivered@.len() implies #[trigger] report.delivered@[k] == k by {
        assert(d[k] == k);
    }
    assert forall|k: int| 0 <= k < report.results@.len() implies subs[k].may_answer(
        payload,
        #[trigger] report.results@[k],
    ) by {
        assert(report.delivered@[k] == k);
        assert(subs[report.delivered@[k] as int].may_answer(payload, report.results@[k]));
    }
}

/// The topics, in order, for which a series of successful subscribes asks the broker: each whose
/// topic is not known when it comes.
pub open spec fn broker_topics<F: Fn(&str) -> bool, C: Fn(String) -> Result<(), CallbackError>>(
    reg: Map<Seq<char>, Seq<Subscription<F, C>>>,
    steps: Seq<(Seq<char>, Subscription<F, C>)>,
) -> Seq<Seq<char>>
    decreases steps.len(),
{
    if steps.len() == 0 {
        seq![]
    } else {
        let prev = broker_topics(reg, steps.drop_last());
        if after_subscribes(reg, steps.drop_last()).contains_key(steps.last().0) {
            prev
        } else {
            prev.push(steps.last().0)
        }
    }
}

/// Whether one of the steps subscribes on `topic`.
pub open spec fn subscribed_in<F: Fn(&str) -> bool, C: Fn(String) -> Result<(), CallbackError>>(
    steps: Seq<(Seq<char>, Subscription<F, C>)>,
    topic: Seq<char>,
) -> bool {
    exists|i: int| 0 <= i < steps.len() && steps[i].0 == topic
}

/// How many of the steps subscribe on `topic`.
pub open spec fn steps_on<F: Fn(&str) -> bool, C: Fn(String) -> Result<(), CallbackError>>(
    steps: Seq<(Seq<char>, Subscription<F, C>)>,
    topic: Seq<char>,
) -> nat
    decreases steps.len(),
{
    if steps.len() == 0 {
        0
    } else {
        steps_on(steps.drop_last(), topic) + if steps.last().0 == topic {
            1nat
        } else {
            0nat
        }
    }
}

/// Over any series of successful subscribes, the broker is asked once for each topic that was not
/// known before and occurs in the series, and for no other; each topic ends up with one more
/// subscription per subscribe on it.
pub proof fn lemma_broker_subscribes_counted<F: Fn(&str) -> bool, C: Fn(String) -> Result<(), CallbackError>>(
    reg: Map<Seq<char>, Seq<Subscription<F, C>>>,
    steps: Seq<(Seq<char>, Subscription<F, C>)>,
)
    ensures
        broker_topics(reg, steps).no_duplicates(),
        forall|t: Seq<char>|
            #[trigger] broker_topics(reg, steps).contains(t) <==> (!reg.contains_key(t)
                && subscribed_in(steps, t)),
        forall|t: Seq<char>|
            #[trigger] after_subscribes(reg, steps).contains_key(t) <==> (reg.contains_key(t)
                || subscribed_in(steps, t)),
        forall|t: Seq<char>|
            #[trigger] subscriptions_on(after_subscribes(reg, steps), t).len() == subscriptions_on(reg, t).len()
                + steps_on(steps, t),
    decreases steps.len(),
{
    if steps.len() > 0 {
        let prev_steps = steps.drop_last();
        let last = steps.last();
        lemma_broker_subscribes_counted(reg, prev_steps);
        let before = after_subscribes(reg, prev_steps);
        let prev = broker_topics(reg, prev_steps);
        assert(prev_steps.len() == steps.len() - 1);
        assert forall|t: Seq<char>|
            #[trigger] subscriptions_on(after_subscribes(reg, steps), t).len() == subscriptions_on(reg, t).len()
                + steps_on(steps, t) by {
            lemma_registration_order(before, last.0, last.1);
            assert(after_subscribes(reg, steps) == with_subscription(before, last.0, last.1));
            assert(subscriptions_on(before, t).len() == subscriptions_on(reg, t).len() + steps_on(prev_steps, t));
            assert(steps_on(steps, t) == steps_on(prev_steps, t) + if last.0 == t {
                1nat
            } else {
                0nat
            });
        }
        assert forall|t: Seq<char>|
            #[trigger] subscribed_in(steps, t) <==> (subscribed_in(prev_steps, t) || last.0 == t) by {
            if exists|i: int| 0 <= i < steps.len() && steps[i].0 == t {
                let i = choose|i: int| 0 <= i < steps.len() && steps[i].0 == t;
                if i < prev_steps.len() {
                    assert(prev_steps[i].0 == t);
                }
            }
            if exists|i: int| 0 <= i < prev_steps.len() && prev_steps[i].0 == t {
                let i = choose|i: int| 0 <= i < prev_steps.len() && prev_steps[i].0 == t;
                assert(steps[i].0 == t);
            }
            if last.0 == t {
                assert(steps[steps.len() - 1].0 == t);
            }
        }
        if !before.contains_key(last.0) {
            assert(!prev.contains(last.0));
            let now = prev.push(last.0);
            assert forall|a: int, b: int| 0 <= a < now.len() && 0 <= b < now.len() && a != b implies now[a] != now[b] by {
                if a == prev.len() as int {
                    assert(prev.contains(now[b]));
                } else if b == prev.len() as int {
                    assert(prev.contains(now[a]));
                }
            }
            assert forall|t: Seq<char>| now.contains(t) <==> prev.contains(t) || t == last.0 by {
                if now.contains(t) {
                    let j = choose|j: int| 0 <= j < now.len() && now[j] == t;
                    if j < prev.len() {
                        assert(prev[j] == t);
                    }
                }
                if prev.contains(t) {
                    let j = choose|j: int| 0 <= j < prev.len() && prev[j] == t;
                    assert(now[j] == t);
                }
                if t == last.0 {
                    assert(now[prev.len() as int] == t);
                }
            }
        }
    }
}

/// Once a subscribe on `topic` has succeeded, the topic stays known through any later subscribes,
/// so `needs_broker_subscribe` never asks for it again: the broker sees one subscribe per topic.
pub proof fn lemma_broker_subscribe_once<F: Fn(&str) -> bool, C: Fn(String) -> Result<(), CallbackError>>(
    reg: Map<Seq<char>, Seq<Subscription<F, C>>>,
    topic: Seq<char>,
    sub: Subscription<F, C>,
    later: Seq<(Seq<char>, Subscription<F, C>)>,
)
    ensures
        after_subscribes(with_subscription(reg, topic, sub), later).contains_key(topic),
    decreases later.len(),
{
    if later.len() > 0 {
        lemma_broker_subscribe_once(reg, topic, sub, later.drop_last());
    }
}

/// Subscribes on one topic keep their registration order: the topic's list grows at its end.
pub proof fn lemma_registration_order<F: Fn(&str) -> bool, C: Fn(String) -> Result<(), CallbackError>>(
    reg: Map<Seq<char>, Seq<Subscription<F, C>>>,
    topic: Seq<char>,
    sub: Subscription<F, C>,
)
    ensures
        subscriptions_on(with_subscription(reg, topic, sub), topic) == subscriptions_on(reg, topic).push(sub),
        forall|other: Seq<char>|
            other != topic ==> subscriptions_on(with_subscription(reg, topic, sub), other)
                == subscriptions_on(reg, other),
{
}

} // verus!
