use vstd::prelude::*;

use crate::money::Money;
use crate::message::TextMessage;
use crate::parser::matchers_wf;
use crate::parser::outcome;
use crate::parser::record_of;
use crate::parser::resolves_to;
use crate::parser::ConfigError;
use crate::parser::Diagnostic;
use crate::parser::Fields;
use crate::parser::Matcher;
use crate::parser::Nature;
use crate::parser::Outcome;
use crate::parser::ParserKind;
use crate::parser::RecordParser;
use crate::parser::Resolution;
use crate::time::UtcTime;

verus! {

/// A transaction read out of one message by one matcher.
///
/// `amount` is the amount as the message states it; the sign that `nature` gives it is
/// applied when amounts are normalized, and nowhere else.
#[derive(Debug)]
pub struct Record {
    pub matcher_id: String,
    pub message_id: u32,
    pub nature: Nature,
    pub account: String,
    pub amount: Money,
    pub source: String,
    pub time: UtcTime,
}

impl Record {
    pub open spec fn wf(self) -> bool {
        &&& self.amount.wf()
        &&& self.time.wf()
    }

    /// A second record equal to this one.
    pub fn duplicate(&self) -> (r: Record)
        ensures
            r == *self,
    {
        Record {
            matcher_id: self.matcher_id.clone(),
            message_id: self.message_id,
            nature: self.nature,
            account: self.account.clone(),
            amount: self.amount.duplicate(),
            source: self.source.clone(),
            time: self.time,
        }
    }
}

/// The records read from a batch of messages, and the messages whose fields could not be
/// read.
#[derive(Debug)]
pub struct ParsedBatch {
    pub records: Vec<Record>,
    pub failures: Vec<Diagnostic>,
}

/// Among the first `n` messages, those that come to a record: the index of the message, the
/// index of its matcher and the fields read, in message order.
pub open spec fn parsed_upto(ms: Seq<Matcher>, msgs: Seq<TextMessage>, n: int) -> Seq<
    (int, int, Fields),
>
    decreases n,
{
    if n <= 0 {
        seq![]
    } else {
        let prev = parsed_upto(ms, msgs, n - 1);
        match outcome(ms, msgs[n - 1].text@) {
            Outcome::Parsed(i, f) => prev.push((n - 1, i, f)),
            _ => prev,
        }
    }
}

/// Among the first `n` messages, those that matched but could not be read: the index of the
/// message, the index of its matcher, the parser that failed and the text it failed on.
pub open spec fn failed_upto(ms: Seq<Matcher>, msgs: Seq<TextMessage>, n: int) -> Seq<
    (int, int, ParserKind, Seq<char>),
>
    decreases n,
{
    if n <= 0 {
        seq![]
    } else {
        let prev = failed_upto(ms, msgs, n - 1);
        match outcome(ms, msgs[n - 1].text@) {
            Outcome::Failed(i, k, t) => prev.push((n - 1, i, k, t)),
            _ => prev,
        }
    }
}

/// The message text `text` reveals a fault of the configuration.
pub open spec fn config_fault(ms: Seq<Matcher>, text: Seq<char>) -> bool {
    outcome(ms, text) is InvalidPattern || outcome(ms, text) is MissingGroup
}

/// `records` and `failures` hold, in message order, what the first `n` messages of `msgs`
/// come to.
pub open spec fn batch_upto(
    records: Seq<Record>,
    failures: Seq<Diagnostic>,
    ms: Seq<Matcher>,
    msgs: Seq<TextMessage>,
    n: int,
) -> bool {
    let parsed = parsed_upto(ms, msgs, n);
    let failed = failed_upto(ms, msgs, n);
    &&& records.len() == parsed.len()
    &&& forall|j: int|
        0 <= j < parsed.len() ==> record_of(
            #[trigger] records[j],
            ms[parsed[j].1],
            msgs[parsed[j].0],
            parsed[j].2,
        ) && records[j].wf()
    &&& failures.len() == failed.len()
    &&& forall|j: int|
        0 <= j < failed.len() ==> {
            let d = #[trigger] failures[j];
            &&& d.message_id == msgs[failed[j].0].id
            &&& d.text@ == msgs[failed[j].0].text@
            &&& d.matcher_id@ == ms[failed[j].1].id@
            &&& d.error.kind == failed[j].2
            &&& d.error.raw_text@ == failed[j].3
        }
}

/// At most one record comes out of each message.
pub proof fn lemma_parsed_upto_len(ms: Seq<Matcher>, msgs: Seq<TextMessage>, n: int)
    requires
        0 <= n,
    ensures
        parsed_upto(ms, msgs, n).len() <= n,
    decreases n,
{
    if n > 0 {
        lemma_parsed_upto_len(ms, msgs, n - 1);
    }
}

impl Record {
    /// Resolves every message in order. A message that no matcher matches is left out, one
    /// whose fields cannot be read is reported among the failures, and a fault of the
    /// configuration stops the batch.
    pub fn parse_messages(matchers: &Vec<Matcher>, messages: &Vec<TextMessage>) -> (r: Result<
        ParsedBatch,
        ConfigError,
    >)
        requires
            matchers_wf(matchers@),
        ensures
            match r {
                Ok(b) => {
                    &&& forall|k: int|
                        0 <= k < messages@.len() ==> !config_fault(
                            matchers@,
                            (#[trigger] messages@[k]).text@,
                        )
                    &&& batch_upto(b.records@, b.failures@, matchers@, messages@, messages@.len() as int)
                    &&& b.records@.len() <= messages@.len()
                },
                Err(e) => exists|k: int|
                    0 <= k < messages@.len() && (forall|j: int|
                        0 <= j < k ==> !config_fault(matchers@, (#[trigger] messages@[j]).text@))
                        && resolves_to(
                        Err::<Resolution, ConfigError>(e),
                        matchers@,
                        messages@[k],
                    ),
            },
    {
        let ghost ms = matchers@;
        let ghost msgs = messages@;
        let parser = RecordParser::new(matchers);
        let mut records: Vec<Record> = Vec::new();
        let mut failures: Vec<Diagnostic> = Vec::new();
        let mut i: usize = 0;
        while i < messages.len()
            invariant
                0 <= i <= msgs.len(),
                ms == matchers@,
                msgs == messages@,
                parser.matchers@ == ms,
                matchers_wf(ms),
                forall|k: int| 0 <= k < i ==> !config_fault(ms, (#[trigger] msgs[k]).text@),
                batch_upto(records@, failures@, ms, msgs, i as int),
            decreases msgs.len() - i,
        {
            let res = parser.parse(&messages[i]);
            match res {
                Err(e) => {
                    return Err(e);
                },
                Ok(Resolution::NoMatch) => {},
                Ok(Resolution::Parsed(rec)) => {
                    records.push(rec);
                },
                Ok(Resolution::Failed(d)) => {
                    failures.push(d);
                },
            }
            i += 1;
        }
        proof {
            lemma_parsed_upto_len(ms, msgs, msgs.len() as int);
        }
        Ok(ParsedBatch { records, failures })
    }
}

} // verus!
