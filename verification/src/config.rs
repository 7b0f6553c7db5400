//! Pipeline configuration and the broker client settings derived from it.
//! The settings encode pipeline policy — above all that automatic offset
//! commit is disabled: the loop takes explicit responsibility for
//! acknowledging a record only after its emission completed.

use vstd::prelude::*;
use crate::record::views_of_strings;

verus! {

/// Externally supplied deployment parameters.
pub struct Config {
    pub kafka_addresses: Vec<String>,
    pub kafka_topic: String,
    pub output_topic: String,
    pub group_id: String,
    pub target_language: String,
    pub max_in_flight: usize,
    pub drain_timeout_ms: u64,
}

/// The given parts joined with the separator between neighbours.
pub open spec fn joined(parts: Seq<Seq<char>>, sep: Seq<char>) -> Seq<char>
    decreases parts.len(),
{
    if parts.len() == 0 {
        Seq::empty()
    } else if parts.len() == 1 {
        parts[0]
    } else {
        joined(parts.drop_last(), sep) + sep + parts.last()
    }
}

/// Joins strings with a separator, as the broker expects its address list.
pub fn join(parts: &Vec<String>, sep: &str) -> (r: String)
    ensures
        r@ == joined(views_of_strings(parts@), sep@),
{
    let mut out = String::new();
    let mut i: usize = 0;
    proof {
        assert(out@ =~= joined(views_of_strings(parts@).take(0), sep@));
    }
    while i < parts.len()
        invariant
            i <= parts@.len(),
            out@ == joined(views_of_strings(parts@).take(i as int), sep@),
        decreases parts@.len() - i,
    {
        if i > 0 {
            out.append(sep);
        }
        out.append(parts[i].as_str());
        proof {
            let vs = views_of_strings(parts@);
            assert(vs.take((i + 1) as int).drop_last() =~= vs.take(i as int));
            assert(vs.take((i + 1) as int).last() == vs[i as int]);
        }
        i = i + 1;
    }
    proof {
        assert(views_of_strings(parts@).take(parts@.len() as int) =~= views_of_strings(parts@));
    }
    out
}

/// One broker client setting.
pub struct Setting {
    pub key: String,
    pub value: String,
}

fn setting(key: &str, value: String) -> (s: Setting)
    ensures
        s.key@ == key@,
        s.value@ == value@,
{
    Setting { key: String::from_str(key), value }
}

/// The consumer settings: fixed group identity, the configured brokers,
/// a bounded session timeout, start at the earliest offset on first run —
/// and automatic commit switched off, because the loop commits an offset
/// only after the record's emission completed.
pub fn initialise_consumer(config: &Config) -> (r: Vec<Setting>)
    ensures
        r@.len() == 7,
        r@[0].key@ == "group.id"@ && r@[0].value@ == config.group_id@,
        r@[1].key@ == "bootstrap.servers"@ && r@[1].value@ == joined(
            views_of_strings(config.kafka_addresses@),
            ","@,
        ),
        r@[2].key@ == "enable.partition.eof"@ && r@[2].value@ == "false"@,
        r@[3].key@ == "session.timeout.ms"@ && r@[3].value@ == "6000"@,
        r@[4].key@ == "enable.auto.commit"@ && r@[4].value@ == "false"@,
        r@[5].key@ == "statistics.interval.ms"@ && r@[5].value@ == "30000"@,
        r@[6].key@ == "auto.offset.reset"@ && r@[6].value@ == "smallest"@,
{
    let mut r: Vec<Setting> = Vec::new();
    r.push(setting("group.id", crate::record::clone_string(&config.group_id)));
    r.push(setting("bootstrap.servers", join(&config.kafka_addresses, ",")));
    r.push(setting("enable.partition.eof", String::from_str("false")));
    r.push(setting("session.timeout.ms", String::from_str("6000")));
    r.push(setting("enable.auto.commit", String::from_str("false")));
    r.push(setting("statistics.interval.ms", String::from_str("30000")));
    r.push(setting("auto.offset.reset", String::from_str("smallest")));
    r
}

/// The producer settings: the configured brokers, a bounded message
/// timeout, and light batching.
pub fn initialise_producer(config: &Config) -> (r: Vec<Setting>)
    ensures
        r@.len() == 5,
        r@[0].key@ == "bootstrap.servers"@ && r@[0].value@ == joined(
            views_of_strings(config.kafka_addresses@),
            ","@,
        ),
        r@[1].key@ == "message.timeout.ms"@ && r@[1].value@ == "5000"@,
        r@[2].key@ == "linger.ms"@ && r@[2].value@ == "5"@,
        r@[3].key@ == "batch.size"@ && r@[3].value@ == "16384"@,
        r@[4].key@ == "acks"@ && r@[4].value@ == "1"@,
{
    let mut r: Vec<Setting> = Vec::new();
    r.push(setting("bootstrap.servers", join(&config.kafka_addresses, ",")));
    r.push(setting("message.timeout.ms", String::from_str("5000")));
    r.push(setting("linger.ms", String::from_str("5")));
    r.push(setting("batch.size", String::from_str("16384")));
    r.push(setting("acks", String::from_str("1")));
    r
}

} // verus!
