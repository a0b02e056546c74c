//! Process configuration: plain settings with their defaults, built from
//! the optional raw values that the process environment supplies. Reading
//! the environment itself stays with the caller.

use vstd::prelude::*;

verus! {

/// The settings the relay runs with.
#[derive(Debug)]
pub struct Config {
    pub aws_region: String,
    pub sqs_queue_url: String,
    pub poll_interval_ms: u64,
    pub max_messages: i32,
    pub route_config_path: String,
    pub http_port: u16,
    pub metrics_port: u16,
}

/// A fatal configuration error; startup aborts on any of these.
#[derive(Debug, Clone, PartialEq, Eq, Structural)]
pub enum ConfigError {
    /// The queue URL is required and was not supplied.
    MissingQueueUrl,
    BadPollInterval,
    BadMaxMessages,
    BadHttpPort,
    BadMetricsPort,
}

/// The numeric value of a decimal digit; 10 for any other character.
pub open spec fn dec_val(c: char) -> int {
    if '0' <= c && c <= '9' {
        (c as int) - ('0' as int)
    } else {
        10
    }
}

/// The value of a digit string, most significant digit first.
pub open spec fn dec_value(s: Seq<char>) -> int
    decreases s.len(),
{
    if s.len() == 0 {
        0
    } else {
        dec_value(s.drop_last()) * 10 + dec_val(s.last())
    }
}

/// Whether a sequence is one or more decimal digits.
pub open spec fn all_digits(s: Seq<char>) -> bool {
    s.len() > 0 && forall|i: int| 0 <= i < s.len() ==> dec_val(#[trigger] s[i]) < 10
}

/// What parsing an unsigned decimal number accepts: an optional leading
/// `+`, then digits, with the value within the given bound.
/// A number with one optional leading `+` removed.
pub open spec fn plus_stripped(s: Seq<char>) -> Seq<char> {
    if s.len() > 0 && s[0] == '+' {
        s.drop_first()
    } else {
        s
    }
}

pub open spec fn parse_unsigned_spec(s: Seq<char>, bound: int) -> Option<int> {
    if all_digits(plus_stripped(s)) && dec_value(plus_stripped(s)) <= bound {
        Option::Some(dec_value(plus_stripped(s)))
    } else {
        Option::None
    }
}

proof fn lemma_dec_value_nonneg(s: Seq<char>)
    ensures
        dec_value(s) >= 0,
    decreases s.len(),
{
    if s.len() > 0 {
        lemma_dec_value_nonneg(s.drop_last());
    }
}

proof fn lemma_dec_value_take_mono(s: Seq<char>, i: int)
    requires
        0 <= i <= s.len(),
    ensures
        dec_value(s.take(i)) <= dec_value(s),
    decreases s.len() - i,
{
    if i < s.len() {
        lemma_dec_value_take_mono(s, i + 1);
        lemma_dec_value_nonneg(s.take(i));
        assert(s.take(i + 1).drop_last() =~= s.take(i));
        assert(s.take(i + 1).last() == s[i]);
        assert(dec_value(s.take(i + 1)) == dec_value(s.take(i)) * 10 + dec_val(s[i]));
        assert(dec_value(s.take(i)) * 10 >= dec_value(s.take(i)));
    } else {
        assert(s.take(i) =~= s);
    }
}

/// Parse an unsigned decimal value no larger than `bound` from the digits
/// of a string, accepting one leading `+`, as the process environment
/// supplies numbers.
pub(crate) fn parse_unsigned(s: &str, bound: u64) -> (r: Option<u64>)
    ensures
        match r {
            Some(n) => parse_unsigned_spec(s@, bound as int) == Option::Some(n as int) && n
                <= bound,
            None => parse_unsigned_spec(s@, bound as int) is None,
        },
{
    let chars = crate::text::str_chars(s);
    let v = chars.as_slice();
    let start: usize = if v.len() > 0 && v[0] == '+' {
        1
    } else {
        0
    };
    proof {
        assert(plus_stripped(s@) =~= v@.skip(start as int));
    }
    if v.len() == start {
        return None;
    }
    let mut acc: u64 = 0;
    let mut i: usize = start;
    while i < v.len()
        invariant
            start <= i <= v@.len(),
            plus_stripped(s@) =~= v@.skip(start as int),
            acc <= bound,
            all_digits(plus_stripped(s@).take(i - start)) || i == start,
            acc as int == dec_value(plus_stripped(s@).take(i - start)),
        decreases v@.len() - i,
    {
        let c = v[i];
        if !('0' <= c && c <= '9') {
            proof {
                let t = plus_stripped(s@);
                assert(0 <= i - start < t.len());
                assert(t[i - start] == v@[i as int]);
                assert(dec_val(t[i - start]) == 10);
                assert(!all_digits(t));
            }
            return None;
        }
        let d: u64 = ((c as u32) - ('0' as u32)) as u64;
        proof {
            let t = plus_stripped(s@);
            assert(t.take(i - start + 1).drop_last() =~= t.take(i - start));
            assert(t.take(i - start + 1).last() == t[i - start]);
            assert(t[i - start] == v@[i as int]);
            assert(dec_value(t.take(i - start + 1)) == acc as int * 10 + d);
        }
        if acc > bound / 10 || d > bound || acc * 10 > bound - d {
            proof {
                let t = plus_stripped(s@);
                lemma_dec_value_take_mono(t, i - start + 1);
                assert(dec_value(t) >= dec_value(t.take(i - start + 1)));
                if acc > bound / 10 {
                    assert(acc as int >= bound as int / 10 + 1);
                    assert(acc as int * 10 >= (bound as int / 10) * 10 + 10);
                    assert((bound as int / 10) * 10 + (bound as int % 10) == bound as int);
                    assert(bound as int % 10 < 10);
                    assert(acc as int * 10 > bound as int);
                }
                assert(dec_value(t.take(i - start + 1)) > bound as int);
                assert(dec_value(t) > bound as int);
                assert(parse_unsigned_spec(s@, bound as int) is None);
            }
            return None;
        }
        acc = acc * 10 + d;
        i = i + 1;
    }
    proof {
        let t = plus_stripped(s@);
        assert(t.take(t.len() as int) =~= t);
        assert(all_digits(t));
    }
    Some(acc)
}

impl Config {
    /// Build the configuration from the raw optional values of the process
    /// environment, applying every documented default; the queue URL is the
    /// one required value.
    pub fn from_values(
        aws_region: Option<String>,
        sqs_queue_url: Option<String>,
        poll_interval_ms: Option<String>,
        max_messages: Option<String>,
        route_config_path: Option<String>,
        http_port: Option<String>,
        metrics_port: Option<String>,
    ) -> (r: Result<Config, ConfigError>)
        ensures
            match r {
                Ok(c) => {
                    &&& sqs_queue_url matches Some(u) && c.sqs_queue_url@ == u@
                    &&& match aws_region {
                        Some(region) => c.aws_region@ == region@,
                        None => c.aws_region@ == "us-east-1"@,
                    }
                    &&& match route_config_path {
                        Some(p) => c.route_config_path@ == p@,
                        None => c.route_config_path@ == "/config/routes.yaml"@,
                    }
                    &&& match poll_interval_ms {
                        Some(p) => parse_unsigned_spec(p@, u64::MAX as int) == Option::Some(
                            c.poll_interval_ms as int,
                        ),
                        None => c.poll_interval_ms == 1000,
                    }
                    &&& match max_messages {
                        Some(p) => parse_unsigned_spec(p@, i32::MAX as int) == Option::Some(
                            c.max_messages as int,
                        ),
                        None => c.max_messages == 10,
                    }
                    &&& match http_port {
                        Some(p) => parse_unsigned_spec(p@, u16::MAX as int) == Option::Some(
                            c.http_port as int,
                        ),
                        None => c.http_port == 8080,
                    }
                    &&& match metrics_port {
                        Some(p) => parse_unsigned_spec(p@, u16::MAX as int) == Option::Some(
                            c.metrics_port as int,
                        ),
                        None => c.metrics_port == 9090,
                    }
                },
                Err(ConfigError::MissingQueueUrl) => sqs_queue_url is None,
                Err(ConfigError::BadPollInterval) => {
                    &&& sqs_queue_url is Some
                    &&& poll_interval_ms matches Some(p) && parse_unsigned_spec(
                        p@,
                        u64::MAX as int,
                    ) is None
                },
                Err(ConfigError::BadMaxMessages) => {
                    &&& sqs_queue_url is Some
                    &&& max_messages matches Some(p) && parse_unsigned_spec(
                        p@,
                        i32::MAX as int,
                    ) is None
                },
                Err(ConfigError::BadHttpPort) => {
                    &&& sqs_queue_url is Some
                    &&& http_port matches Some(p) && parse_unsigned_spec(
                        p@,
                        u16::MAX as int,
                    ) is None
                },
                Err(ConfigError::BadMetricsPort) => {
                    &&& sqs_queue_url is Some
                    &&& metrics_port matches Some(p) && parse_unsigned_spec(
                        p@,
                        u16::MAX as int,
                    ) is None
                },
            },
    {
        let sqs_queue_url = match sqs_queue_url {
            Some(u) => u,
            None => {
                return Err(ConfigError::MissingQueueUrl);
            },
        };
        let aws_region = match aws_region {
            Some(region) => region,
            None => String::from_str("us-east-1"),
        };
        let route_config_path = match route_config_path {
            Some(p) => p,
            None => String::from_str("/config/routes.yaml"),
        };
        let poll_interval_ms: u64 = match poll_interval_ms {
            Some(p) => match parse_unsigned(p.as_str(), u64::MAX) {
                Some(n) => n,
                None => {
                    return Err(ConfigError::BadPollInterval);
                },
            },
            None => 1000,
        };
        let max_messages: i32 = match max_messages {
            Some(p) => match parse_unsigned(p.as_str(), i32::MAX as u64) {
                Some(n) => n as i32,
                None => {
                    return Err(ConfigError::BadMaxMessages);
                },
            },
            None => 10,
        };
        let http_port: u16 = match http_port {
            Some(p) => match parse_unsigned(p.as_str(), u16::MAX as u64) {
                Some(n) => n as u16,
                None => {
                    return Err(ConfigError::BadHttpPort);
                },
            },
            None => 8080,
        };
        let metrics_port: u16 = match metrics_port {
            Some(p) => match parse_unsigned(p.as_str(), u16::MAX as u64) {
                Some(n) => n as u16,
                None => {
                    return Err(ConfigError::BadMetricsPort);
                },
            },
            None => 9090,
        };
        Ok(
            Config {
                aws_region,
                sqs_queue_url,
                poll_interval_ms,
                max_messages,
                route_config_path,
                http_port,
                metrics_port,
            },
        )
    }
}

} // verus!
