use vstd::prelude::*;
use crate::arg::OutputFormat;
use crate::voice::{BaseUnit, PrefixUnit, PrimaryValue};

verus! {

#[verifier::external_type_specification]
#[verifier::external_body]
pub struct ExParser(es51986::parser::Parser);

#[verifier::external_type_specification]
#[verifier::external_body]
pub struct ExOutput(es51986::Output);

#[verifier::external_type_specification]
#[verifier::external_body]
pub struct ExOutputValue(es51986::OutputValue);

#[verifier::external_type_specification]
#[verifier::external_body]
pub struct ExParseError(es51986::parser::ParseError);

/// A decoder with no partial frame buffered.
pub assume_specification[ es51986::parser::Parser::new ]() -> es51986::parser::Parser;

/// Decodes the bytes of one chunk, continuing any frame left partial by the
/// chunks before; one result per completed frame or malformed frame, in order.
pub assume_specification[ es51986::parser::Parser::parse ](
    p: &mut es51986::parser::Parser,
    input: &[u8],
) -> Vec<Result<es51986::Output, es51986::parser::ParseError>>;

/// The primary value of a record, when its range and function give one.
pub assume_specification[ es51986::Output::get_value ](o: &es51986::Output) -> Option<es51986::OutputValue>;

/// Relies on the public `digits` field of `es51986::OutputValue`.
#[verifier::external_body]
fn value_digits(v: &es51986::OutputValue) -> String {
    v.digits.clone()
}

/// Relies on the public `value_unit.prefix_unit` field of `es51986::OutputValue`.
#[verifier::external_body]
fn value_prefix(v: &es51986::OutputValue) -> PrefixUnit {
    match v.value_unit.prefix_unit {
        es51986::PrefixUnit::Mega => PrefixUnit::Mega,
        es51986::PrefixUnit::Kilo => PrefixUnit::Kilo,
        es51986::PrefixUnit::None => PrefixUnit::NoPrefix,
        es51986::PrefixUnit::Millis => PrefixUnit::Millis,
        es51986::PrefixUnit::Micro => PrefixUnit::Micro,
        es51986::PrefixUnit::Nano => PrefixUnit::Nano,
    }
}

/// Relies on the public `value_unit.base_unit` field of `es51986::OutputValue`.
#[verifier::external_body]
fn value_base(v: &es51986::OutputValue) -> BaseUnit {
    match v.value_unit.base_unit {
        es51986::BaseUnit::Ampere => BaseUnit::Ampere,
        es51986::BaseUnit::Volt => BaseUnit::Volt,
        es51986::BaseUnit::Ohm => BaseUnit::Ohm,
        es51986::BaseUnit::Hearts => BaseUnit::Hearts,
        es51986::BaseUnit::Farad => BaseUnit::Farad,
    }
}

/// One decoded measurement: the decoder's record as it came, and its primary value.
pub struct Record {
    pub raw: es51986::Output,
    pub value: Option<PrimaryValue>,
}

impl Record {
    pub fn from_output(raw: es51986::Output) -> (r: Record)
        ensures
            r.raw == raw,
    {
        let value = match raw.get_value() {
            Some(v) => Some(PrimaryValue {
                digits: value_digits(&v),
                prefix_unit: value_prefix(&v),
                base_unit: value_base(&v),
            }),
            None => None,
        };
        Record { raw, value }
    }
}

/// The stateful byte-to-record decoder.
pub struct Decoder {
    parser: es51986::parser::Parser,
}

impl Decoder {
    pub fn new() -> Decoder {
        Decoder { parser: es51986::parser::Parser::new() }
    }

    /// Decodes one chunk: a record or a decode error for each frame that
    /// the chunk completes, in the decoder's order.
    pub fn feed(&mut self, chunk: &[u8]) -> Vec<Result<Record, es51986::parser::ParseError>> {
        records_of(self.parser.parse(chunk))
    }
}

/// Turns the decoder's results into records, one for one and in order:
/// each decoded frame becomes a record holding it, each error stays as it is.
pub fn records_of(raw: Vec<Result<es51986::Output, es51986::parser::ParseError>>) -> (r: Vec<Result<Record, es51986::parser::ParseError>>)
    ensures
        r@.len() == raw@.len(),
        forall|i: int| 0 <= i < raw@.len() ==> match #[trigger] raw@[i] {
            Ok(o) => r@[i] is Ok && r@[i]->Ok_0.raw == o,
            Err(e) => r@[i] == Err::<Record, es51986::parser::ParseError>(e),
        },
{
    let ghost raw0 = raw@;
    let mut rest = raw;
    let mut out: Vec<Result<Record, es51986::parser::ParseError>> = Vec::new();
    while rest.len() > 0
        invariant
            out@.len() + rest@.len() == raw0.len(),
            rest@ == raw0.skip(out@.len() as int),
            forall|i: int| 0 <= i < out@.len() ==> match #[trigger] raw0[i] {
                Ok(o) => out@[i] is Ok && out@[i]->Ok_0.raw == o,
                Err(e) => out@[i] == Err::<Record, es51986::parser::ParseError>(e),
            },
        decreases rest@.len(),
    {
        let ghost before = rest@;
        let item = rest.remove(0);
        assert(item == raw0[out@.len() as int]);
        match item {
            Ok(o) => out.push(Ok(Record::from_output(o))),
            Err(e) => out.push(Err(e)),
        }
        assert(rest@ =~= raw0.skip(out@.len() as int));
    }
    out
}

/// A console subscriber: each record becomes one line of structured output.
pub struct StdoutDataSubscriber {
    pub format: OutputFormat,
}

impl StdoutDataSubscriber {
    pub fn new(format: OutputFormat) -> (r: Self)
        ensures
            r.format == format,
    {
        StdoutDataSubscriber { format }
    }
}

/// One step of dispatching a chunk's decode results.
#[derive(Debug, Clone, Copy, PartialEq, Eq, Structural)]
pub enum Effect {
    /// Hand result `result` (a record) to subscriber `subscriber`.
    Deliver { subscriber: usize, result: usize },
    /// Log result `result` (a decode error) and go on.
    LogError { result: usize },
}

/// The effects for result `i`: a record goes to every subscriber in
/// registration order, an error is logged once.
pub open spec fn effects_for(i: int, is_record: bool, n: nat) -> Seq<Effect> {
    if is_record {
        Seq::new(n, |k: int| Effect::Deliver { subscriber: k as usize, result: i as usize })
    } else {
        seq![Effect::LogError { result: i as usize }]
    }
}

/// The effects for a sequence of results, in the order of the results.
pub open spec fn plan(kinds: Seq<bool>, n: nat) -> Seq<Effect>
    decreases kinds.len(),
{
    if kinds.len() == 0 {
        Seq::empty()
    } else {
        plan(kinds.drop_last(), n) + effects_for(kinds.len() - 1, kinds.last(), n)
    }
}

pub open spec fn kinds_of<T, E>(results: Seq<Result<T, E>>) -> Seq<bool> {
    results.map_values(|x: Result<T, E>| x is Ok)
}

/// Plans the dispatch of one chunk's decode results to `n_subscribers`
/// subscribers.
pub fn plan_dispatch<T, E>(results: &Vec<Result<T, E>>, n_subscribers: usize) -> (r: Vec<Effect>)
    ensures
        r@ == plan(kinds_of(results@), n_subscribers as nat),
{
    let mut out: Vec<Effect> = Vec::new();
    let mut i: usize = 0;
    while i < results.len()
        invariant
            i <= results@.len(),
            out@ == plan(kinds_of(results@).take(i as int), n_subscribers as nat),
        decreases results@.len() - i,
    {
        let ghost before = out@;
        let ghost kinds = kinds_of(results@);
        assert(kinds.take(i as int + 1).drop_last() =~= kinds.take(i as int));
        match &results[i] {
            Ok(_) => {
                let mut k: usize = 0;
                while k < n_subscribers
                    invariant
                        i < results@.len(),
                        k <= n_subscribers,
                        out@ == before + Seq::new(k as nat, |j: int| Effect::Deliver { subscriber: j as usize, result: i }),
                    decreases n_subscribers - k,
                {
                    out.push(Effect::Deliver { subscriber: k, result: i });
                    assert(out@ =~= before + Seq::new((k + 1) as nat, |j: int| Effect::Deliver { subscriber: j as usize, result: i }));
                    k = k + 1;
                }
                assert(out@ =~= plan(kinds.take(i as int + 1), n_subscribers as nat));
            },
            Err(_) => {
                out.push(Effect::LogError { result: i });
                assert(out@ =~= plan(kinds.take(i as int + 1), n_subscribers as nat));
            },
        }
        i = i + 1;
    }
    assert(kinds_of(results@).take(results@.len() as int) =~= kinds_of(results@));
    out
}

/// The results delivered to subscriber `k`, in delivery order.
pub open spec fn delivered(effects: Seq<Effect>, k: usize) -> Seq<usize>
    decreases effects.len(),
{
    if effects.len() == 0 {
        Seq::empty()
    } else {
        let rest = delivered(effects.drop_last(), k);
        match effects.last() {
            Effect::Deliver { subscriber, result } => if subscriber == k { rest.push(result) } else { rest },
            Effect::LogError { .. } => rest,
        }
    }
}

/// The positions of the records among the results, in order.
pub open spec fn record_positions(kinds: Seq<bool>) -> Seq<usize>
    decreases kinds.len(),
{
    if kinds.len() == 0 {
        Seq::empty()
    } else if kinds.last() {
        record_positions(kinds.drop_last()).push((kinds.len() - 1) as usize)
    } else {
        record_positions(kinds.drop_last())
    }
}

proof fn lemma_delivered_concat(a: Seq<Effect>, b: Seq<Effect>, k: usize)
    ensures
        delivered(a + b, k) == delivered(a, k) + delivered(b, k),
    decreases b.len(),
{
    if b.len() == 0 {
        assert(a + b =~= a);
        assert(delivered(a, k) + delivered(b, k) =~= delivered(a, k));
    } else {
        assert((a + b).drop_last() =~= a + b.drop_last());
        lemma_delivered_concat(a, b.drop_last(), k);
        assert((a + b).last() == b.last());
        match b.last() {
            Effect::Deliver { subscriber, result } => {
                if subscriber == k {
                    assert(delivered(a, k) + delivered(b.drop_last(), k).push(result)
                        =~= (delivered(a, k) + delivered(b.drop_last(), k)).push(result));
                }
            },
            Effect::LogError { .. } => {},
        }
    }
}

proof fn lemma_delivered_fan_out(i: usize, m: nat, k: usize)
    requires
        m <= usize::MAX,
    ensures
        delivered(Seq::new(m, |j: int| Effect::Deliver { subscriber: j as usize, result: i }), k)
            == (if (k as nat) < m { seq![i] } else { Seq::<usize>::empty() }),
    decreases m,
{
    let s = Seq::new(m, |j: int| Effect::Deliver { subscriber: j as usize, result: i });
    if m > 0 {
        let s0 = Seq::new((m - 1) as nat, |j: int| Effect::Deliver { subscriber: j as usize, result: i });
        assert(s.drop_last() =~= s0);
        lemma_delivered_fan_out(i, (m - 1) as nat, k);
        assert(s.last() == Effect::Deliver { subscriber: (m - 1) as usize, result: i });
        if (k as nat) < m - 1 {
            assert((m - 1) as usize != k);
        }
    } else {
        assert(s =~= Seq::<Effect>::empty());
    }
}

/// Fan-out law: for every sequence of decode results and every registered
/// subscriber, the subscriber is handed exactly the records among the results,
/// in the decoder's order, each once; decode errors reach no subscriber.
pub proof fn lemma_subscribers_see_every_record_in_order(kinds: Seq<bool>, n: nat, k: usize)
    requires
        (k as nat) < n,
        n <= usize::MAX,
        kinds.len() <= usize::MAX,
    ensures
        delivered(plan(kinds, n), k) == record_positions(kinds),
    decreases kinds.len(),
{
    if kinds.len() > 0 {
        let i = kinds.len() - 1;
        lemma_subscribers_see_every_record_in_order(kinds.drop_last(), n, k);
        lemma_delivered_concat(plan(kinds.drop_last(), n), effects_for(i, kinds.last(), n), k);
        if kinds.last() {
            lemma_delivered_fan_out(i as usize, n, k);
            assert(effects_for(i, true, n) =~= Seq::new(n, |j: int| Effect::Deliver { subscriber: j as usize, result: i as usize }));
            assert(record_positions(kinds.drop_last()) + seq![i as usize] =~= record_positions(kinds.drop_last()).push(i as usize));
        } else {
            let e = effects_for(i, false, n);
            assert(e.drop_last() =~= Seq::<Effect>::empty());
            assert(e.last() == Effect::LogError { result: i as usize });
            assert(delivered(e.drop_last(), k) =~= Seq::<usize>::empty());
            assert(delivered(e, k) =~= Seq::<usize>::empty());
            assert(record_positions(kinds.drop_last()) + Seq::<usize>::empty() =~= record_positions(kinds.drop_last()));
        }
    } else {
        assert(delivered(plan(kinds, n), k) =~= Seq::<usize>::empty());
    }
}

} // verus!
