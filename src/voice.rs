use vstd::prelude::*;

verus! {

/// Unit prefix of a reading's primary value.
#[derive(Debug, Clone, Copy, PartialEq, Eq, Structural)]
pub enum PrefixUnit {
    Mega,
    Kilo,
    NoPrefix,
    Millis,
    Micro,
    Nano,
}

/// Base unit of a reading's primary value.
#[derive(Debug, Clone, Copy, PartialEq, Eq, Structural)]
pub enum BaseUnit {
    Ampere,
    Volt,
    Ohm,
    Hearts,
    Farad,
}

/// The primary value derived from a reading: magnitude as printed digits,
/// unit prefix and base unit.
#[derive(Debug, Clone)]
pub struct PrimaryValue {
    pub digits: String,
    pub prefix_unit: PrefixUnit,
    pub base_unit: BaseUnit,
}

/// Spoken name of a unit prefix; no prefix is spoken as nothing.
pub open spec fn prefix_word(p: PrefixUnit) -> Seq<char> {
    match p {
        PrefixUnit::Mega => "メガ"@,
        PrefixUnit::Kilo => "キロ"@,
        PrefixUnit::NoPrefix => ""@,
        PrefixUnit::Millis => "ミリ"@,
        PrefixUnit::Micro => "マイクロ"@,
        PrefixUnit::Nano => "ナノ"@,
    }
}

/// Spoken name of a base unit.
pub open spec fn base_word(b: BaseUnit) -> Seq<char> {
    match b {
        BaseUnit::Ampere => "アンペア"@,
        BaseUnit::Volt => "ボルト"@,
        BaseUnit::Ohm => "オーム"@,
        BaseUnit::Hearts => "ヘルツ"@,
        BaseUnit::Farad => "ファラッド"@,
    }
}

/// The phrase spoken for a primary value: magnitude, prefix name, unit name.
pub open spec fn phrase_of(v: PrimaryValue) -> Seq<char> {
    v.digits@ + prefix_word(v.prefix_unit) + base_word(v.base_unit)
}

pub fn prefix_name(p: PrefixUnit) -> (r: &'static str)
    ensures
        r@ == prefix_word(p),
{
    match p {
        PrefixUnit::Mega => "メガ",
        PrefixUnit::Kilo => "キロ",
        PrefixUnit::NoPrefix => "",
        PrefixUnit::Millis => "ミリ",
        PrefixUnit::Micro => "マイクロ",
        PrefixUnit::Nano => "ナノ",
    }
}

pub fn base_name(b: BaseUnit) -> (r: &'static str)
    ensures
        r@ == base_word(b),
{
    match b {
        BaseUnit::Ampere => "アンペア",
        BaseUnit::Volt => "ボルト",
        BaseUnit::Ohm => "オーム",
        BaseUnit::Hearts => "ヘルツ",
        BaseUnit::Farad => "ファラッド",
    }
}

/// Three strings written one after another.
pub fn concat3(a: &str, b: &str, c: &str) -> (r: String)
    ensures
        r@ == a@ + b@ + c@,
{
    let mut r = String::from_str(a);
    r.append(b);
    r.append(c);
    r
}

/// Renders the phrase spoken for a primary value.
pub fn phrase(v: &PrimaryValue) -> (r: String)
    ensures
        r@ == phrase_of(*v),
{
    concat3(v.digits.as_str(), prefix_name(v.prefix_unit), base_name(v.base_unit))
}

/// One non-blocking look into the mailbox.
pub enum Poll {
    Message(String),
    Empty,
    Disconnected,
}

#[derive(Debug, Clone, Copy, PartialEq, Eq, Structural)]
pub enum VoiceboxDataSubscriberErr {
    Disconnected,
}

/// Drain-to-latest: starting from `current`, every queued message replaces
/// the one held; an empty mailbox ends the drain with the message held, a
/// closed one ends it with an error.
pub open spec fn drain_latest(current: Seq<char>, polls: Seq<Poll>) -> Result<Seq<char>, VoiceboxDataSubscriberErr>
    decreases polls.len(),
{
    if polls.len() == 0 {
        Ok(current)
    } else {
        match polls[0] {
            Poll::Message(m) => drain_latest(m@, polls.skip(1)),
            Poll::Empty => Ok(current),
            Poll::Disconnected => Err(VoiceboxDataSubscriberErr::Disconnected),
        }
    }
}

/// The message that the worker speaks next: `first` is what the blocking
/// receive gave (`None` when the mailbox is closed), `polls` what the
/// non-blocking receives that followed gave, in order.
pub fn last_msg(first: Option<String>, polls: Vec<Poll>) -> (r: Result<String, VoiceboxDataSubscriberErr>)
    ensures
        first.is_none() ==> r == Err::<String, VoiceboxDataSubscriberErr>(VoiceboxDataSubscriberErr::Disconnected),
        first matches Some(m) ==> match r {
            Ok(s) => drain_latest(m@, polls@) == Ok::<Seq<char>, VoiceboxDataSubscriberErr>(s@),
            Err(e) => drain_latest(m@, polls@) == Err::<Seq<char>, VoiceboxDataSubscriberErr>(e),
        },
{
    let ghost first0 = first;
    let ghost polls0 = polls@;
    let mut current = match first {
        Some(m) => m,
        None => return Err(VoiceboxDataSubscriberErr::Disconnected),
    };
    let ghost target = drain_latest(current@, polls@);
    let mut rest = polls;
    while rest.len() > 0
        invariant
            drain_latest(current@, rest@) == target,
            first0 matches Some(m0) && target == drain_latest(m0@, polls0),
            first0 == first,
            polls0 == polls@,
        decreases rest.len(),
    {
        let ghost before = rest@;
        let p = rest.remove(0);
        proof {
            assert(rest@ =~= before.skip(1));
        }
        match p {
            Poll::Message(m) => {
                current = m;
            },
            Poll::Empty => {
                return Ok(current);
            },
            Poll::Disconnected => {
                return Err(VoiceboxDataSubscriberErr::Disconnected);
            },
        }
    }
    Ok(current)
}

/// Drain-to-latest law: when messages were queued one after another and the
/// mailbox then reads empty, the drain yields the last of them, whatever was
/// held before; every earlier one is dropped.
pub proof fn lemma_drain_speaks_latest(current: Seq<char>, polls: Seq<Poll>)
    requires
        polls.len() > 0,
        polls.last() matches Poll::Empty,
        forall|i: int| 0 <= i < polls.len() - 1 ==> (#[trigger] polls[i]) matches Poll::Message(_),
    ensures
        polls.len() == 1 ==> drain_latest(current, polls) == Ok::<Seq<char>, VoiceboxDataSubscriberErr>(current),
        polls.len() > 1 ==> (polls[polls.len() - 2] matches Poll::Message(m)
            && drain_latest(current, polls) == Ok::<Seq<char>, VoiceboxDataSubscriberErr>(m@)),
    decreases polls.len(),
{
    if polls.len() > 1 {
        let rest = polls.skip(1);
        assert(polls[0] matches Poll::Message(_));
        assert forall|i: int| 0 <= i < rest.len() - 1 implies (#[trigger] rest[i]) matches Poll::Message(_) by {
            assert(rest[i] == polls[i + 1]);
        }
        assert(rest.last() == polls.last());
        match polls[0] {
            Poll::Message(m) => {
                lemma_drain_speaks_latest(m@, rest);
                if rest.len() > 1 {
                    assert(rest[rest.len() - 2] == polls[polls.len() - 2]);
                }
            },
            _ => {},
        }
    }
}

#[verifier::external_type_specification]
#[verifier::external_body]
#[verifier::reject_recursive_types(T)]
pub struct ExSender<T>(std::sync::mpsc::Sender<T>);

/// Relies on std's `Sender::send`, which hands the message to the channel and
/// fails only when the receiving side is gone.
#[verifier::external_body]
fn send_message(tx: &std::sync::mpsc::Sender<String>, msg: String) -> (r: bool) {
    tx.send(msg).is_ok()
}

/// Relies on std's `str::strip_suffix`: `s` without one trailing slash, when it has one.
#[verifier::external_body]
fn strip_slash<'a>(s: &'a str) -> (r: Option<&'a str>)
    ensures
        r matches Some(t) ==> s@ == t@.push('/'),
        r.is_none() ==> s@.len() == 0 || s@.last() != '/',
{
    s.strip_suffix('/')
}

/// A base address with one trailing slash removed.
pub open spec fn trim_slash(s: Seq<char>) -> Seq<char> {
    if s.len() > 0 && s.last() == '/' { s.drop_last() } else { s }
}

/// Decimal digits of a number, most significant first.
pub open spec fn decimal_of(n: nat) -> Seq<char>
    decreases n,
{
    if n < 10 {
        seq!["0123456789"@[n as int]]
    } else {
        decimal_of(n / 10).push("0123456789"@[(n % 10) as int])
    }
}

/// Relies on std's `Display` for `usize`, which writes the number in decimal.
#[verifier::external_body]
fn decimal(n: usize) -> (r: String)
    ensures
        r@ == decimal_of(n as nat),
{
    n.to_string()
}

/// What `url::Url::parse_with_params` gives for an input and query pairs:
/// the serialized address, or nothing when the input does not parse.
pub uninterp spec fn url_with_params(input: Seq<char>, params: Seq<(Seq<char>, Seq<char>)>) -> Option<Seq<char>>;

pub open spec fn pairs_view(ps: Seq<(String, String)>) -> Seq<(Seq<char>, Seq<char>)> {
    ps.map_values(|p: (String, String)| (p.0@, p.1@))
}

pub open spec fn opt_view(o: Option<String>) -> Option<Seq<char>> {
    match o {
        Some(s) => Some(s@),
        None => None,
    }
}

/// Relies on `url::Url::parse_with_params` (re-exported by reqwest), which
/// parses `input` and appends the pairs as a form-encoded query.
#[verifier::external_body]
fn parse_with_params(input: &str, params: &Vec<(String, String)>) -> (r: Option<String>)
    ensures
        opt_view(r) == url_with_params(input@, pairs_view(params@)),
{
    reqwest::Url::parse_with_params(input, params.iter()).ok().map(|u| u.to_string())
}

/// Address of the query-construction step for a speaker and a text.
pub open spec fn query_url_of(base: Seq<char>, speaker: usize, text: Seq<char>) -> Option<Seq<char>> {
    url_with_params(
        base + "/"@ + "audio_query"@,
        seq![("speaker"@, decimal_of(speaker as nat)), ("text"@, text)],
    )
}

/// Address of the synthesis step for a speaker.
pub open spec fn synthesis_url_of(base: Seq<char>, speaker: usize) -> Option<Seq<char>> {
    url_with_params(base + "/"@ + "synthesis"@, seq![("speaker"@, decimal_of(speaker as nat))])
}

pub fn query_url(base: &str, speaker: usize, text: &str) -> (r: Option<String>)
    ensures
        opt_view(r) == query_url_of(base@, speaker, text@),
{
    let input = concat3(base, "/", "audio_query");
    let mut params: Vec<(String, String)> = Vec::new();
    params.push(("speaker".to_owned(), decimal(speaker)));
    params.push(("text".to_owned(), text.to_owned()));
    proof {
        assert(pairs_view(params@) =~= seq![("speaker"@, decimal_of(speaker as nat)), ("text"@, text@)]);
    }
    parse_with_params(input.as_str(), &params)
}

pub fn synthesis_url(base: &str, speaker: usize) -> (r: Option<String>)
    ensures
        opt_view(r) == synthesis_url_of(base@, speaker),
{
    let input = concat3(base, "/", "synthesis");
    let mut params: Vec<(String, String)> = Vec::new();
    params.push(("speaker".to_owned(), decimal(speaker)));
    proof {
        assert(pairs_view(params@) =~= seq![("speaker"@, decimal_of(speaker as nat))]);
    }
    parse_with_params(input.as_str(), &params)
}

/// Why an utterance was dropped.
#[derive(Debug, Clone, Copy, PartialEq, Eq, Structural)]
pub enum SpeakFailure {
    QueryUrl,
    QueryRequest,
    SynthesisUrl,
    SynthesisRequest,
}

/// The next thing the synthesis worker does for one utterance.
pub enum SpeakStep {
    /// Post to the query-construction address.
    Query { url: String },
    /// Post the query's answer, as JSON, to the synthesis address.
    Synthesize { url: String, body: String },
    /// Decode this waveform and play it to the end.
    Play { wav: Vec<u8> },
    /// Log the failure and go back to the mailbox.
    Dropped(SpeakFailure),
}

/// First step of speaking `msg`.
pub fn start_speak(base: &str, speaker: usize, msg: &str) -> (r: SpeakStep)
    ensures
        match query_url_of(base@, speaker, msg@) {
            Some(u) => (r matches SpeakStep::Query { url } && url@ == u),
            None => r == SpeakStep::Dropped(SpeakFailure::QueryUrl),
        },
{
    match query_url(base, speaker, msg) {
        Some(url) => SpeakStep::Query { url },
        None => SpeakStep::Dropped(SpeakFailure::QueryUrl),
    }
}

/// Step after the query-construction request: `answer` is its body, or
/// `None` when the request failed.
pub fn after_query(base: &str, speaker: usize, answer: Option<String>) -> (r: SpeakStep)
    ensures
        answer.is_none() ==> r == SpeakStep::Dropped(SpeakFailure::QueryRequest),
        answer matches Some(b) ==> match synthesis_url_of(base@, speaker) {
            Some(u) => (r matches SpeakStep::Synthesize { url, body } && url@ == u && body@ == b@),
            None => r == SpeakStep::Dropped(SpeakFailure::SynthesisUrl),
        },
{
    match answer {
        None => SpeakStep::Dropped(SpeakFailure::QueryRequest),
        Some(body) => match synthesis_url(base, speaker) {
            Some(url) => SpeakStep::Synthesize { url, body },
            None => SpeakStep::Dropped(SpeakFailure::SynthesisUrl),
        },
    }
}

/// Step after the synthesis request: `audio` is its body, or `None` when the
/// request failed.
pub fn after_synthesis(audio: Option<Vec<u8>>) -> (r: SpeakStep)
    ensures
        audio.is_none() ==> r == SpeakStep::Dropped(SpeakFailure::SynthesisRequest),
        audio matches Some(a) ==> (r matches SpeakStep::Play { wav } && wav@ == a@),
{
    match audio {
        None => SpeakStep::Dropped(SpeakFailure::SynthesisRequest),
        Some(wav) => SpeakStep::Play { wav },
    }
}

/// The phrases handed to the mailbox for a sequence of readings' primary
/// values, in order: one for each reading that has a value.
pub open spec fn phrases_of(values: Seq<Option<PrimaryValue>>) -> Seq<Seq<char>>
    decreases values.len(),
{
    if values.len() == 0 {
        Seq::empty()
    } else {
        let rest = phrases_of(values.drop_last());
        match values.last() {
            Some(v) => rest.push(phrase_of(v)),
            None => rest,
        }
    }
}

/// Mailbox law: handing readings to the subscriber one after another puts in
/// the mailbox exactly one phrase per reading with a primary value, in call
/// order, none repeated or left out. Each successful `on_data` appends
/// `phrases_of(seq![value])` to `sent`; this splits the phrases of a longer
/// sequence of readings into those of a prefix and those of the next one.
pub proof fn lemma_mailbox_gets_one_phrase_per_value(values: Seq<Option<PrimaryValue>>, next: Seq<Option<PrimaryValue>>)
    ensures
        phrases_of(values + next) == phrases_of(values) + phrases_of(next),
    decreases next.len(),
{
    if next.len() == 0 {
        assert(values + next =~= values);
        assert(phrases_of(values) + phrases_of(next) =~= phrases_of(values));
    } else {
        assert((values + next).drop_last() =~= values + next.drop_last());
        lemma_mailbox_gets_one_phrase_per_value(values, next.drop_last());
        assert((values + next).last() == next.last());
        match next.last() {
            Some(v) => {
                assert(phrases_of(values) + phrases_of(next.drop_last()).push(phrase_of(v))
                    =~= (phrases_of(values) + phrases_of(next.drop_last())).push(phrase_of(v)));
            },
            None => {},
        }
    }
}

/// A subscriber that speaks each reading's primary value. Readings are only
/// put in the mailbox here; a worker on the receiving side speaks them.
/// `sent` records, in order, every phrase handed to the mailbox.
pub struct VoiceboxDataSubscriber {
    pub url: String,
    pub speaker: usize,
    pub tx: std::sync::mpsc::Sender<String>,
    pub sent: Ghost<Seq<Seq<char>>>,
}

impl VoiceboxDataSubscriber {
    /// `url` is the synthesis service's base address; one trailing slash is dropped.
    pub fn new(url: String, speaker: usize, tx: std::sync::mpsc::Sender<String>) -> (r: Self)
        ensures
            r.url@ == trim_slash(url@),
            r.speaker == speaker,
            r.tx == tx,
            r.sent@ == Seq::<Seq<char>>::empty(),
    {
        let url = match strip_slash(url.as_str()) {
            Some(t) => t.to_owned(),
            None => url,
        };
        VoiceboxDataSubscriber { url, speaker, tx, sent: Ghost(Seq::empty()) }
    }

    /// The phrase put in the mailbox for a reading: one for each reading
    /// that has a primary value, none otherwise.
    pub fn message_for(value: &Option<PrimaryValue>) -> (r: Option<String>)
        ensures
            value.is_none() ==> r.is_none(),
            value matches Some(v) ==> (r matches Some(m) && m@ == phrase_of(*v)),
    {
        match value {
            Some(v) => Some(phrase(v)),
            None => None,
        }
    }

    /// Puts the phrase for a reading in the mailbox. Never blocks.
    pub fn on_data(&mut self, value: &Option<PrimaryValue>) -> (r: Result<(), VoiceboxDataSubscriberErr>)
        ensures
            final(self).url == old(self).url,
            final(self).speaker == old(self).speaker,
            final(self).tx == old(self).tx,
            value.is_none() ==> r.is_ok(),
            r.is_ok() ==> final(self).sent@ == old(self).sent@ + phrases_of(seq![*value]),
            r.is_err() ==> final(self).sent@ == old(self).sent@,
    {
        proof {
            let one = seq![*value];
            assert(one.drop_last() =~= Seq::<Option<PrimaryValue>>::empty());
            assert(phrases_of(one.drop_last()) =~= Seq::<Seq<char>>::empty());
            assert(one.last() == *value);
        }
        match Self::message_for(value) {
            Some(m) => if send_message(&self.tx, m.clone()) {
                self.sent = Ghost(self.sent@.push(m@));
                proof {
                    assert(self.sent@ =~= old(self).sent@ + phrases_of(seq![*value]));
                }
                Ok(())
            } else {
                Err(VoiceboxDataSubscriberErr::Disconnected)
            },
            None => {
                proof {
                    assert(self.sent@ =~= old(self).sent@ + phrases_of(seq![*value]));
                }
                Ok(())
            },
        }
    }
}

} // verus!
