//! The service records by which a line can name its host.
use crate::address::{self, IpAddr};
use crate::matching::{self, normalize_host};
use crate::problem::{self, Problem};
use crate::routing::LineTarget;
use crate::text::{self, cat2, cat3, from_chars, same_text, to_chars};
use std::sync::atomic::{AtomicU64, Ordering};
use vstd::prelude::*;
use vstd::string::*;

verus! {

/// A service record as the resolver answered it.
#[derive(Debug, PartialEq, Eq)]
pub struct SrvTarget {
    pub priority: u16,
    pub weight: u16,
    pub host: String,
    pub port: u16,
}

impl Clone for SrvTarget {
    fn clone(&self) -> (copy: Self)
        ensures
            copy == *self,
    {
        SrvTarget {
            priority: self.priority,
            weight: self.weight,
            host: self.host.clone(),
            port: self.port,
        }
    }
}

/// A host without the brackets around it.
pub open spec fn unbracketed(host: Seq<char>) -> Seq<char> {
    if host.len() >= 2 && host[0] == '[' && host.last() == ']' {
        host.subrange(1, host.len() - 1)
    } else {
        host
    }
}

/// A host without the one dot at its end.
pub open spec fn without_root(host: Seq<char>) -> Seq<char> {
    if host.len() > 0 && host.last() == '.' {
        host.drop_last()
    } else {
        host
    }
}

/// The name under which the service records of a host are found; an address has none.
pub open spec fn query_name(host: Seq<char>) -> Option<Seq<char>> {
    let name = without_root(unbracketed(host));
    if name.len() == 0 || address::address_value(name) is Some {
        None
    } else {
        Some("_minecraft._tcp."@ + name + "."@)
    }
}

/// The name under which the service records of a host are found.
pub fn minecraft_srv_query_name(host: &str) -> (name: Option<String>)
    ensures
        text::text_of(name) == query_name(host@),
{
    let chars = to_chars(host);
    let mut from: usize = 0;
    let mut to: usize = chars.len();
    if to >= 2 && chars[0] == '[' && chars[to - 1] == ']' {
        from = 1;
        to = to - 1;
    }
    if to > from && chars[to - 1] == '.' {
        to = to - 1;
    }
    let name = from_chars(&chars, from, to);
    assert(name@ =~= without_root(unbracketed(host@)));
    if name.as_str().is_empty() || IpAddr::parse(name.as_str()).is_some() {
        return None;
    }
    Some(cat3("_minecraft._tcp.", name.as_str(), "."))
}

/// A host name as players write it: without dots at its end, except for the root itself.
pub open spec fn plain_name(host: Seq<char>) -> Seq<char> {
    if matching::host_form(host).len() == 0 {
        "."@
    } else {
        matching::host_form(host)
    }
}

pub fn trim_dns_root(host: String) -> (name: String)
    ensures
        name@ == plain_name(host@),
{
    let form = normalize_host(host.as_str());
    if form.is_empty() {
        ".".to_owned()
    } else {
        form.to_owned()
    }
}

/// The lowest priority of a list of records.
pub open spec fn lowest_priority(records: Seq<SrvTarget>) -> u16
    decreases records.len(),
{
    if records.len() == 0 {
        u16::MAX
    } else {
        let rest = lowest_priority(records.drop_last());
        if records.last().priority < rest {
            records.last().priority
        } else {
            rest
        }
    }
}

/// The records with a priority, in order.
pub open spec fn with_priority(records: Seq<SrvTarget>, priority: u16) -> Seq<SrvTarget>
    decreases records.len(),
{
    if records.len() == 0 {
        Seq::empty()
    } else {
        let rest = with_priority(records.drop_last(), priority);
        if records.last().priority == priority {
            rest.push(records.last())
        } else {
            rest
        }
    }
}

/// The sum of the weights of a list of records.
pub open spec fn total_weight(records: Seq<SrvTarget>) -> nat
    decreases records.len(),
{
    if records.len() == 0 {
        0
    } else {
        total_weight(records.drop_last()) + records.last().weight as nat
    }
}

/// The first position at which the weights, added up from the front, come to a mark.
pub open spec fn reached(records: Seq<SrvTarget>, mark: int) -> int
    decreases records.len(),
{
    if records.len() == 0 || records[0].weight >= mark {
        0
    } else {
        1 + reached(records.drop_first(), mark - records[0].weight)
    }
}

/// The position among records of one priority that is chosen for a number.
pub open spec fn weighted_choice(records: Seq<SrvTarget>, sequence: u64) -> int {
    let total = total_weight(records);
    if total == 0 {
        (sequence as usize) as int % records.len() as int
    } else {
        reached(records, sequence as int % (total as int + 1))
    }
}

/// The record that is chosen for a number: one of those with the lowest priority, by
/// their weights.
pub open spec fn chosen_record(records: Seq<SrvTarget>, sequence: u64) -> Option<SrvTarget> {
    if records.len() == 0 {
        None
    } else {
        let candidates = with_priority(records, lowest_priority(records));
        Some(candidates[weighted_choice(candidates, sequence)])
    }
}

proof fn lemma_lowest_priority(records: Seq<SrvTarget>)
    requires
        records.len() > 0,
    ensures
        forall|i: int|
            0 <= i < records.len() ==> lowest_priority(records) <= (#[trigger] records[i]).priority,
        with_priority(records, lowest_priority(records)).len() > 0,
    decreases records.len(),
{
    let rest = records.drop_last();
    let low = lowest_priority(records);
    if rest.len() > 0 {
        lemma_lowest_priority(rest);
        assert forall|i: int| 0 <= i < records.len() implies low <= (
        #[trigger] records[i]).priority by {
            if i < rest.len() {
                assert(rest[i] == records[i]);
            }
        }
    } else {
        assert(lowest_priority(rest) == u16::MAX);
    }
}

proof fn lemma_with_priority(records: Seq<SrvTarget>, priority: u16)
    ensures
        with_priority(records, priority).len() <= records.len(),
        forall|i: int|
            0 <= i < with_priority(records, priority).len() ==> (#[trigger] with_priority(
                records,
                priority,
            )[i]).priority == priority && records.contains(with_priority(records, priority)[i]),
    decreases records.len(),
{
    if records.len() > 0 {
        let rest = records.drop_last();
        lemma_with_priority(rest, priority);
    }
}

proof fn lemma_total_weight_front(records: Seq<SrvTarget>)
    requires
        records.len() > 0,
    ensures
        total_weight(records) == records[0].weight + total_weight(records.drop_first()),
    decreases records.len(),
{
    if records.len() > 1 {
        let rest = records.drop_last();
        lemma_total_weight_front(rest);
        assert(rest.drop_first() == records.drop_first().drop_last());
    } else {
        assert(total_weight(records.drop_last()) == 0);
    }
}

proof fn lemma_reached_is_in_range(records: Seq<SrvTarget>, mark: int)
    requires
        records.len() > 0,
        mark <= total_weight(records),
    ensures
        0 <= reached(records, mark) < records.len(),
    decreases records.len(),
{
    if records[0].weight < mark {
        lemma_total_weight_front(records);
        lemma_reached_is_in_range(records.drop_first(), mark - records[0].weight);
    }
}

fn candidates_of(records: &[SrvTarget], priority: u16) -> (candidates: Vec<SrvTarget>)
    ensures
        candidates@ == with_priority(records@, priority),
{
    let mut candidates: Vec<SrvTarget> = Vec::new();
    let mut i: usize = 0;
    while i < records.len()
        invariant
            i <= records.len(),
            candidates@ == with_priority(records@.take(i as int), priority),
        decreases records.len() - i,
    {
        assert(records@.take(i + 1).drop_last() == records@.take(i as int));
        if records[i].priority == priority {
            candidates.push(records[i].clone());
        }
        i += 1;
    }
    assert(records@.take(records@.len() as int) == records@);
    candidates
}

fn lowest_of(records: &[SrvTarget]) -> (priority: u16)
    ensures
        priority == lowest_priority(records@),
{
    let mut priority: u16 = u16::MAX;
    let mut i: usize = 0;
    while i < records.len()
        invariant
            i <= records.len(),
            priority == lowest_priority(records@.take(i as int)),
        decreases records.len() - i,
    {
        assert(records@.take(i + 1).drop_last() == records@.take(i as int));
        if records[i].priority < priority {
            priority = records[i].priority;
        }
        i += 1;
    }
    assert(records@.take(records@.len() as int) == records@);
    priority
}

fn weight_of(records: &[SrvTarget]) -> (total: u128)
    ensures
        total == total_weight(records@),
        total <= usize::MAX * 65535,
{
    let mut total: u128 = 0;
    let mut i: usize = 0;
    while i < records.len()
        invariant
            i <= records.len(),
            total == total_weight(records@.take(i as int)),
            total <= i * 65535,
        decreases records.len() - i,
    {
        assert(records@.take(i + 1).drop_last() == records@.take(i as int));
        total = total + records[i].weight as u128;
        i += 1;
    }
    assert(records@.take(records@.len() as int) == records@);
    total
}

fn reach(records: &[SrvTarget], mark: u128) -> (index: usize)
    requires
        records@.len() > 0,
        mark <= total_weight(records@),
    ensures
        index == reached(records@, mark as int),
        index < records@.len(),
{
    let mut left: u128 = mark;
    let mut i: usize = 0;
    proof {
        lemma_reached_is_in_range(records@, mark as int);
    }
    assert(records@.skip(0) == records@);
    while (records[i].weight as u128) < left
        invariant
            i < records.len(),
            reached(records@, mark as int) == i + reached(records@.skip(i as int), left as int),
            reached(records@, mark as int) < records@.len(),
            left <= total_weight(records@.skip(i as int)),
        decreases records.len() - i,
    {
        let ghost rest = records@.skip(i as int);
        proof {
            assert(rest.drop_first() == records@.skip(i + 1));
            lemma_total_weight_front(rest);
        }
        left = left - records[i].weight as u128;
        i += 1;
    }
    i
}

/// The record that is chosen for a number.
pub fn select_srv_target(records: &[SrvTarget], sequence: u64) -> (record: Option<SrvTarget>)
    ensures
        record == chosen_record(records@, sequence),
{
    if records.len() == 0 {
        return None;
    }
    let candidates = candidates_of(records, lowest_of(records));
    proof {
        lemma_lowest_priority(records@);
    }
    let total = weight_of(candidates.as_slice());
    if total == 0 {
        let index = (sequence as usize) % candidates.len();
        return Some(candidates[index].clone());
    }
    let mark = sequence as u128 % (total + 1);
    let index = reach(candidates.as_slice(), mark);
    Some(candidates[index].clone())
}

/// Whether a record names a host that can be reached.
pub open spec fn usable(record: SrvTarget) -> bool {
    record.host@ != "."@ && record.port != 0
}

/// The records of an answer that can be used, in order, with plain host names.
pub open spec fn usable_records(answers: Seq<SrvTarget>, records: Seq<SrvTarget>) -> bool
    decreases answers.len(),
{
    if answers.len() == 0 {
        records.len() == 0
    } else if usable(answers.last()) {
        &&& records.len() > 0
        &&& records.last() == (SrvTarget { host: records.last().host, ..answers.last() })
        &&& records.last().host@ == plain_name(answers.last().host@)
        &&& usable_records(answers.drop_last(), records.drop_last())
    } else {
        usable_records(answers.drop_last(), records)
    }
}

/// Whether an answer says that the service is not offered.
pub open spec fn declines(answers: Seq<SrvTarget>) -> bool {
    exists|i: int| 0 <= i < answers.len() && (#[trigger] answers[i]).host@ == "."@
}

/// Whether an answer has a record that can be used.
pub open spec fn any_usable(answers: Seq<SrvTarget>) -> bool {
    exists|i: int| 0 <= i < answers.len() && usable(#[trigger] answers[i])
}

proof fn lemma_usable_records(answers: Seq<SrvTarget>, records: Seq<SrvTarget>)
    requires
        usable_records(answers, records),
    ensures
        records.len() > 0 <==> any_usable(answers),
    decreases answers.len(),
{
    if answers.len() > 0 {
        let rest = answers.drop_last();
        if !usable(answers.last()) {
            lemma_usable_records(rest, records);
            if any_usable(answers) {
                let i = choose|i: int| 0 <= i < answers.len() && usable(#[trigger] answers[i]);
                assert(rest[i] == answers[i]);
            }
        }
    }
}

/// Keeps the records of an answer that can be used.
pub fn keep_usable(answers: &Vec<SrvTarget>) -> (records: Vec<SrvTarget>)
    ensures
        usable_records(answers@, records@),
{
    let mut records: Vec<SrvTarget> = Vec::new();
    let mut i: usize = 0;
    while i < answers.len()
        invariant
            i <= answers.len(),
            usable_records(answers@.take(i as int), records@),
        decreases answers.len() - i,
    {
        let record = &answers[i];
        assert(answers@.take(i + 1).drop_last() == answers@.take(i as int));
        if !same_text(record.host.as_str(), ".") && record.port != 0 {
            let ghost before = records@;
            records.push(
                SrvTarget {
                    priority: record.priority,
                    weight: record.weight,
                    host: trim_dns_root(record.host.clone()),
                    port: record.port,
                },
            );
            assert(records@.drop_last() == before);
        }
        i += 1;
    }
    assert(answers@.take(answers@.len() as int) == answers@);
    records
}

fn declined(answers: &Vec<SrvTarget>) -> (yes: bool)
    ensures
        yes == declines(answers@),
{
    let mut i: usize = 0;
    while i < answers.len()
        invariant
            i <= answers.len(),
            forall|k: int| 0 <= k < i ==> (#[trigger] answers@[k]).host@ != "."@,
        decreases answers.len() - i,
    {
        if same_text(answers[i].host.as_str(), ".") {
            return true;
        }
        i += 1;
    }
    false
}

/// Whether a target is the host of the record that is chosen for a number.
pub open spec fn leads_to(answers: Seq<SrvTarget>, sequence: u64, target: LineTarget) -> bool {
    exists|records: Seq<SrvTarget>| #[trigger]
        usable_records(answers, records) && {
            &&& chosen_record(records, sequence) is Some
            &&& target.host == chosen_record(records, sequence)->0.host
            &&& target.port == chosen_record(records, sequence)->0.port
            &&& !target.resolve_srv
        }
}

/// What the answer to a query for service records makes of a target, where `sequence` is
/// the number of the choice.
pub open spec fn resolves(
    target: LineTarget,
    answers: Seq<SrvTarget>,
    sequence: u64,
    outcome: Result<LineTarget, Problem>,
) -> bool {
    if any_usable(answers) {
        outcome matches Ok(resolved) && leads_to(answers, sequence, resolved)
    } else if declines(answers) {
        outcome matches Err(problem) && problem@ == problem::plain(
            "Minecraft SRV service is unavailable for "@ + target.host@,
        )
    } else {
        outcome matches Ok(resolved) && resolved == target
    }
}

/// What the answer to a query for service records makes of a target, given the number of
/// the choice.
pub fn resolve_answers(target: &LineTarget, answers: &Vec<SrvTarget>, sequence: u64) -> (outcome:
    Result<LineTarget, Problem>)
    ensures
        resolves(*target, answers@, sequence, outcome),
{
    let records = keep_usable(answers);
    proof {
        lemma_usable_records(answers@, records@);
    }
    match select_srv_target(records.as_slice(), sequence) {
        Some(record) => Ok(
            LineTarget { host: record.host, port: record.port, resolve_srv: false },
        ),
        None => {
            if declined(answers) {
                Err(
                    Problem::new(
                        cat2("Minecraft SRV service is unavailable for ", target.host.as_str()),
                    ),
                )
            } else {
                Ok(target.clone())
            }
        },
    }
}

/// Makes a counter that stands at zero with the given operation.
fn from_zero<F: Fn(u64) -> AtomicU64>(make: F) -> (counter: AtomicU64)
    requires
        call_requires(make, (0u64,)),
    ensures
        call_ensures(make, (0u64,), counter),
{
    make(0)
}

/// Raises a counter by one with the given operation, and returns what the operation does.
fn raised<F: Fn(&AtomicU64, u64, Ordering) -> u64>(raise: F, counter: &AtomicU64) -> (before: u64)
    requires
        call_requires(raise, (counter, 1u64, Ordering::Relaxed)),
    ensures
        call_ensures(raise, (counter, 1u64, Ordering::Relaxed), before),
{
    raise(counter, 1, Ordering::Relaxed)
}

/// The choice between service records, and whether there is a resolver to ask for them.
#[derive(Debug)]
pub struct MinecraftDnsResolver {
    pub available: bool,
    pub sequence: AtomicU64,
}

impl MinecraftDnsResolver {
    /// The choice at its start, where `available` says whether the system has a resolver.
    pub fn from_system_config(available: bool) -> (resolver: Self)
        ensures
            resolver.available == available,
            call_ensures(AtomicU64::new, (0u64,), resolver.sequence),
    {
        MinecraftDnsResolver { available, sequence: from_zero(AtomicU64::new) }
    }

    /// The name to ask the resolver for, if the target is to be resolved at all.
    pub fn query(&self, target: &LineTarget, resolve_srv: bool) -> (name: Option<String>)
        ensures
            text::text_of(name) == if resolve_srv && self.available {
                query_name(target.host@)
            } else {
                None
            },
    {
        if resolve_srv && self.available {
            minecraft_srv_query_name(target.host.as_str())
        } else {
            None
        }
    }

    /// Whether a number is one that the counter can have had when it was raised by one.
    pub open spec fn counts(self, sequence: u64) -> bool {
        call_ensures(AtomicU64::fetch_add, (&self.sequence, 1u64, Ordering::Relaxed), sequence)
    }

    /// Counts a choice with `AtomicU64::fetch_add`, and returns the number that the counter
    /// had. The counter is shared between threads and wraps around: which number comes back
    /// is left open, and `resolve_answers` is exact for each.
    fn next_sequence(&self) -> (sequence: u64)
        ensures
            self.counts(sequence),
    {
        raised(AtomicU64::fetch_add, &self.sequence)
    }

    /// What becomes of a target, where `answers` is what the resolver answered to its query:
    /// nothing, if it was not asked or failed. The number of the choice is the one that the
    /// shared counter had when it was raised by one.
    pub fn resolve_target(
        &self,
        target: &LineTarget,
        resolve_srv: bool,
        answers: Option<Vec<SrvTarget>>,
    ) -> (outcome: Result<LineTarget, Problem>)
        ensures
            match answers {
                Some(answers) if resolve_srv && self.available && query_name(target.host@)
                    is Some => exists|sequence: u64|
                    (any_usable(answers@) ==> self.counts(sequence)) && #[trigger]
                    resolves(*target, answers@, sequence, outcome),
                _ => outcome matches Ok(resolved) && resolved == *target,
            },
    {
        if self.query(target, resolve_srv).is_none() {
            return Ok(target.clone());
        }
        match answers {
            Some(answers) => {
                let kept = keep_usable(&answers);
                proof {
                    lemma_usable_records(answers@, kept@);
                }
                let sequence: u64 = if kept.is_empty() {
                    0
                } else {
                    self.next_sequence()
                };
                resolve_answers(target, &answers, sequence)
            },
            None => Ok(target.clone()),
        }
    }
}

/// Only records with the lowest priority are chosen.
pub proof fn lemma_lowest_priority_is_chosen(records: Seq<SrvTarget>, sequence: u64, i: int)
    requires
        0 <= i < records.len(),
    ensures
        chosen_record(records, sequence) matches Some(record) && records.contains(record)
            && record.priority <= records[i].priority,
{
    let low = lowest_priority(records);
    let candidates = with_priority(records, low);
    lemma_lowest_priority(records);
    lemma_with_priority(records, low);
    let total = total_weight(candidates);
    if total > 0 {
        lemma_reached_is_in_range(candidates, sequence as int % (total as int + 1));
    }
}

/// Every record of one priority that has a weight is chosen for some mark: for the weights
/// up to and with its own.
pub proof fn lemma_every_weight_is_reached(records: Seq<SrvTarget>, i: int)
    requires
        0 <= i < records.len(),
        records[i].weight > 0,
    ensures
        reached(records, total_weight(records.take(i + 1)) as int) == i,
        total_weight(records.take(i + 1)) <= total_weight(records),
    decreases i,
{
    let upto = records.take(i + 1);
    lemma_total_weight_front(upto);
    lemma_total_weight_front(records);
    assert(upto.drop_first() == records.drop_first().take(i));
    if i > 0 {
        lemma_every_weight_is_reached(records.drop_first(), i - 1);
    }
}

/// The sum of the weights grows record by record.
pub proof fn lemma_weights_add_up(records: Seq<SrvTarget>, record: SrvTarget)
    ensures
        total_weight(Seq::<SrvTarget>::empty()) == 0,
        total_weight(records.push(record)) == total_weight(records) + record.weight,
{
    assert(records.push(record).drop_last() =~= records);
}

proof fn lemma_with_priority_filters(records: Seq<SrvTarget>, priority: u16)
    ensures
        with_priority(records, priority) == records.filter(
            |record: SrvTarget| record.priority == priority,
        ),
    decreases records.len(),
{
    reveal(Seq::filter);
    if records.len() > 0 {
        lemma_with_priority_filters(records.drop_last(), priority);
    }
}

proof fn lemma_reached_mark(records: Seq<SrvTarget>, mark: int)
    requires
        records.len() > 0,
        mark <= total_weight(records),
    ensures
        0 <= reached(records, mark) < records.len(),
        mark <= total_weight(records.take(reached(records, mark) + 1)),
        reached(records, mark) > 0 ==> total_weight(records.take(reached(records, mark))) < mark,
        mark <= 0 ==> reached(records, mark) == 0,
        mark > 0 ==> total_weight(records.take(reached(records, mark))) < mark,
    decreases records.len(),
{
    let i = reached(records, mark);
    lemma_total_weight_front(records);
    if records[0].weight >= mark {
        assert(records.take(1).drop_last() =~= records.take(0));
        assert(total_weight(records.take(0)) == 0);
    } else {
        let rest = records.drop_first();
        let left = mark - records[0].weight;
        lemma_reached_mark(rest, left);
        let j = reached(rest, left);
        lemma_total_weight_front(records.take(i + 1));
        lemma_total_weight_front(records.take(i));
        assert(records.take(i + 1).drop_first() =~= rest.take(j + 1));
        assert(records.take(i).drop_first() =~= rest.take(j));
    }
}

/// The choice between service records. Only records with the lowest priority `low` are
/// candidates, in the order of the answer. Their weights, one after the other, take up the
/// numbers from one to their sum; the number of the choice, counted around from zero to that
/// sum, falls on the candidate that is chosen, where zero falls on the first. So of as many
/// choices in a row as the sum and one more, each candidate gets as many as its weight, and
/// the first one more. Candidates without any weight take turns.
pub proof fn lemma_records_are_chosen_by_weight(
    records: &[SrvTarget],
    sequence: u64,
    record: Option<SrvTarget>,
    low: u16,
) -> (i: int)
    requires
        call_ensures(select_srv_target, (records, sequence), record),
        exists|k: int| 0 <= k < records@.len() && (#[trigger] records@[k]).priority == low,
        forall|k: int| 0 <= k < records@.len() ==> low <= (#[trigger] records@[k]).priority,
    ensures
        ({
            let candidates = records@.filter(|record: SrvTarget| record.priority == low);
            let total = total_weight(candidates);
            let mark = sequence as int % (total as int + 1);
            &&& 0 <= i < candidates.len()
            &&& record == Some(candidates[i])
            &&& total > 0 && mark == 0 ==> i == 0
            &&& total > 0 && mark > 0 ==> total_weight(candidates.take(i)) < mark
                <= total_weight(candidates.take(i + 1))
            &&& total == 0 ==> i == (sequence as usize) as int % candidates.len() as int
        }),
{
    let least = lowest_priority(records@);
    lemma_lowest_priority(records@);
    lemma_with_priority(records@, least);
    assert(with_priority(records@, least)[0].priority == least);
    assert(least == low);
    lemma_with_priority_filters(records@, low);
    let candidates = with_priority(records@, low);
    let total = total_weight(candidates);
    if total > 0 {
        lemma_reached_mark(candidates, sequence as int % (total as int + 1));
    }
    weighted_choice(candidates, sequence)
}

/// There is no choice exactly where there are no records.
pub proof fn lemma_choice_needs_records(
    records: &[SrvTarget],
    sequence: u64,
    record: Option<SrvTarget>,
)
    requires
        call_ensures(select_srv_target, (records, sequence), record),
    ensures
        record is None <==> records@.len() == 0,
{
}

/// The records of an answer that are chosen from, one by one: those that name a host and a
/// port, in order, each with its own priority, weight and port, and its host without the dots
/// at the end.
pub proof fn lemma_usable_records_are_kept(answers: Vec<SrvTarget>, records: Vec<SrvTarget>)
    requires
        call_ensures(keep_usable, (&answers,), records),
    ensures
        ({
            let kept = answers@.filter(
                |record: SrvTarget| record.host@ != "."@ && record.port != 0,
            );
            &&& records@.len() == kept.len()
            &&& forall|k: int|
                0 <= k < kept.len() ==> {
                    &&& (#[trigger] records@[k]).priority == kept[k].priority
                    &&& records@[k].weight == kept[k].weight
                    &&& records@[k].port == kept[k].port
                    &&& matching::host_form(kept[k].host@).len() > 0 ==> records@[k].host@
                        == matching::host_form(kept[k].host@)
                    &&& matching::host_form(kept[k].host@).len() == 0 ==> records@[k].host@
                        == "."@
                }
        }),
{
    lemma_kept_records(answers@, records@);
}

proof fn lemma_kept_records(answers: Seq<SrvTarget>, records: Seq<SrvTarget>)
    requires
        usable_records(answers, records),
    ensures
        ({
            let kept = answers.filter(
                |record: SrvTarget| record.host@ != "."@ && record.port != 0,
            );
            &&& records.len() == kept.len()
            &&& forall|k: int|
                0 <= k < kept.len() ==> {
                    &&& (#[trigger] records[k]).priority == kept[k].priority
                    &&& records[k].weight == kept[k].weight
                    &&& records[k].port == kept[k].port
                    &&& records[k].host@ == plain_name(kept[k].host@)
                }
        }),
    decreases answers.len(),
{
    reveal(Seq::filter);
    let keep = |record: SrvTarget| record.host@ != "."@ && record.port != 0;
    if answers.len() > 0 {
        let rest = answers.drop_last();
        if usable(answers.last()) {
            lemma_kept_records(rest, records.drop_last());
            let kept = rest.filter(keep);
            assert(answers.filter(keep) == kept.push(answers.last()));
            assert forall|k: int| 0 <= k < answers.filter(keep).len() implies {
                &&& (#[trigger] records[k]).priority == answers.filter(keep)[k].priority
                &&& records[k].weight == answers.filter(keep)[k].weight
                &&& records[k].port == answers.filter(keep)[k].port
                &&& records[k].host@ == plain_name(answers.filter(keep)[k].host@)
            } by {
                if k < kept.len() {
                    assert(records.drop_last()[k] == records[k]);
                }
            }
        } else {
            lemma_kept_records(rest, records);
            assert(answers.filter(keep) == rest.filter(keep));
        }
    }
}

/// What becomes of a target. It stays as it is where records are not asked for, there is no
/// resolver, the host has no records, or no answer came; and where the answer has no record
/// to use. An answer with only the root in place of a host is refused. Otherwise the target
/// is the host and the port of the record that is chosen among those that can be used, by the
/// number that the counter had when it was raised by one, and is not resolved again.
pub proof fn lemma_target_follows_its_records(
    resolver: MinecraftDnsResolver,
    target: LineTarget,
    resolve_srv: bool,
    answers: Option<Vec<SrvTarget>>,
    outcome: Result<LineTarget, Problem>,
)
    requires
        call_ensures(
            MinecraftDnsResolver::resolve_target,
            (&resolver, &target, resolve_srv, answers),
            outcome,
        ),
    ensures
        !resolve_srv || !resolver.available || query_name(target.host@) is None || answers is None
            ==> outcome == Ok::<LineTarget, Problem>(target),
        resolve_srv && resolver.available && query_name(target.host@) is Some && answers is Some
            ==> {
            let all = answers->0@;
            let some_usable = exists|k: int|
                0 <= k < all.len() && (#[trigger] all[k]).host@ != "."@ && all[k].port != 0;
            let some_root = exists|k: int| 0 <= k < all.len() && (#[trigger] all[k]).host@ == "."@;
            &&& !some_usable && !some_root ==> outcome == Ok::<LineTarget, Problem>(target)
            &&& !some_usable && some_root ==> outcome is Err && outcome->Err_0.message@
                == "Minecraft SRV service is unavailable for "@ + target.host@
                && outcome->Err_0.cause is None
            &&& some_usable ==> outcome is Ok && !outcome->Ok_0.resolve_srv && exists|
                records: Seq<SrvTarget>,
                sequence: u64,
            |
                {
                    &&& call_ensures(
                        AtomicU64::fetch_add,
                        (&resolver.sequence, 1u64, Ordering::Relaxed),
                        sequence,
                    )
                    &&& #[trigger] usable_records(all, records)
                    &&& #[trigger] chosen_record(records, sequence) is Some
                    &&& outcome->Ok_0.host == chosen_record(records, sequence)->0.host
                    &&& outcome->Ok_0.port == chosen_record(records, sequence)->0.port
                }
        },
{
    if answers is Some {
        let all = answers->0@;
        if any_usable(all) && resolve_srv && resolver.available
            && query_name(target.host@) is Some {
            let sequence = choose|sequence: u64|
                resolver.counts(sequence) && #[trigger] resolves(target, all, sequence, outcome);
            let records = choose|records: Seq<SrvTarget>| #[trigger]
                usable_records(all, records) && chosen_record(records, sequence) is Some
                    && outcome->Ok_0.host == chosen_record(records, sequence)->0.host
                    && outcome->Ok_0.port == chosen_record(records, sequence)->0.port;
            assert(usable_records(all, records) && chosen_record(records, sequence) is Some);
        }
    }
}

/// The records of a host stand under its name behind `_minecraft._tcp.`, closed by a dot. One
/// dot at the end of the host, and brackets around it, make no difference. An address, or
/// nothing at all, has no records.
pub proof fn lemma_records_stand_under_the_service_name(
    host: &str,
    plain: Seq<char>,
    name: Option<String>,
)
    requires
        call_ensures(minecraft_srv_query_name, (host,), name),
        plain.len() > 0 ==> plain[0] != '[' && plain.last() != '.',
        host@ == plain || host@ == plain + "."@ || host@ == "["@ + plain + "]"@,
    ensures
        plain.len() == 0 || address::address_value(plain) is Some ==> name is None,
        plain.len() > 0 && address::address_value(plain) is None ==> name is Some && name->0@
            == "_minecraft._tcp."@ + plain + "."@,
{
    reveal_strlit(".");
    reveal_strlit("[");
    reveal_strlit("]");
    if host@ == "["@ + plain + "]"@ {
        assert(host@[0] == '[' && host@.last() == ']');
        assert(unbracketed(host@) =~= plain);
    } else if host@ == plain + "."@ {
        assert(host@.last() == '.');
        assert(unbracketed(host@) == host@);
        assert(host@.drop_last() =~= plain);
    } else {
        assert(unbracketed(host@) == host@);
    }
    assert(without_root(unbracketed(host@)) =~= plain);
}

/// The resolver is asked for the records of a host exactly when records are asked for, there
/// is a resolver, and the host can have records.
pub proof fn lemma_resolver_is_asked(
    resolver: MinecraftDnsResolver,
    target: LineTarget,
    resolve_srv: bool,
    host: &str,
    name: Option<String>,
    asked: Option<String>,
)
    requires
        host@ == target.host@,
        call_ensures(minecraft_srv_query_name, (host,), name),
        call_ensures(MinecraftDnsResolver::query, (&resolver, &target, resolve_srv), asked),
    ensures
        asked is Some <==> resolve_srv && resolver.available && name is Some,
        asked is Some ==> asked->0@ == name->0@,
{
}

/// The count of choices begins with zero.
pub proof fn lemma_choices_count_from_zero(available: bool, resolver: MinecraftDnsResolver)
    requires
        call_ensures(MinecraftDnsResolver::from_system_config, (available,), resolver),
    ensures
        resolver.available == available,
        call_ensures(AtomicU64::new, (0u64,), resolver.sequence),
{
}

} // verus!
