//! The periodic scheduler's tasks and their intervals, and the names of
//! subagent runs.
use vstd::prelude::*;
use vstd::string::*;
use crate::text::{to_chars, dec, u64_to_string, usize_to_string, parse_unsigned, parse_unsigned_range};

verus! {

/// A task run at a fixed interval. `cron_expr` is the interval: seconds, or
/// milliseconds with an `ms` suffix.
#[derive(Clone, Debug, PartialEq, Eq)]
pub struct ScheduledTask {
    pub name: String,
    pub cron_expr: String,
    pub prompt: String,
}

/// The scheduler's tasks, and what runs them.
pub struct Scheduler<R> {
    pub tasks: Vec<ScheduledTask>,
    pub runner: R,
}

impl<R> Scheduler<R> {
    /// A scheduler with no task.
    pub fn new(runner: R) -> (r: Scheduler<R>)
        ensures
            r.tasks@.len() == 0,
            r.runner == runner,
    {
        Scheduler { tasks: Vec::new(), runner }
    }

    /// Adds a task that runs every `interval_secs` seconds.
    pub fn add_task(&mut self, name: String, interval_secs: u64, prompt: String)
        ensures
            final(self).tasks@.len() == old(self).tasks@.len() + 1,
            final(self).tasks@.take(old(self).tasks@.len() as int) == old(self).tasks@,
            final(self).tasks@.last().name == name,
            final(self).tasks@.last().cron_expr@ == dec(interval_secs as nat),
            final(self).tasks@.last().prompt == prompt,
            final(self).runner == old(self).runner,
    {
        let cron_expr = u64_to_string(interval_secs);
        self.tasks.push(ScheduledTask { name, cron_expr, prompt });
        proof {
            assert(self.tasks@.take(old(self).tasks@.len() as int) =~= old(self).tasks@);
        }
    }
}

/// The text with every trailing `ms` removed (what `trim_end_matches("ms")` gives).
pub open spec fn strip_ms(s: Seq<char>) -> Seq<char>
    decreases s.len(),
{
    if s.len() >= 2 && s[s.len() - 2] == 'm' && s[s.len() - 1] == 's' {
        strip_ms(s.subrange(0, s.len() - 2))
    } else {
        s
    }
}

/// The interval of an `ms` expression in milliseconds (1000 when the number is
/// not readable); none for an expression without the suffix.
pub open spec fn interval_millis_spec(expr: Seq<char>) -> Option<u64> {
    if expr.len() >= 2 && expr[expr.len() - 2] == 'm' && expr[expr.len() - 1] == 's' {
        match parse_unsigned(strip_ms(expr), u64::MAX as nat) {
            Ok(n) => Some(n as u64),
            Err(_) => Some(1000),
        }
    } else {
        None
    }
}

/// The interval in milliseconds of an expression with the `ms` suffix.
pub fn interval_millis(expr: &str) -> (r: Option<u64>)
    ensures
        r == interval_millis_spec(expr@),
{
    let v = to_chars(expr);
    let n = v.len();
    if !(n >= 2 && v[n - 2] == 'm' && v[n - 1] == 's') {
        return None;
    }
    let mut e = n;
    proof {
        assert(v@.subrange(0, e as int) =~= v@);
    }
    while e >= 2 && v[e - 2] == 'm' && v[e - 1] == 's'
        invariant
            e <= v@.len(),
            v@ == expr@,
            strip_ms(expr@) == strip_ms(v@.subrange(0, e as int)),
        decreases e,
    {
        proof {
            assert(v@.subrange(0, e as int).subrange(0, e - 2) =~= v@.subrange(0, e - 2));
        }
        e = e - 2;
    }
    match parse_unsigned_range(&v, 0, e, u64::MAX) {
        Ok(ms) => Some(ms),
        Err(_) => Some(1000),
    }
}

/// The name of the `n`-th subagent run.
pub fn subagent_id(n: usize) -> (r: String)
    ensures
        r@ == "subagent-"@ + dec(n as nat),
{
    let mut r = "subagent-".to_string();
    let d = usize_to_string(n);
    r.append(d.as_str());
    r
}

} // verus!
