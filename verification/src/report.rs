//! Targets, aggregated results, and their classification and rendering.

use vstd::prelude::*;

use crate::output;
use crate::output::{dec_str, secs_str, u_spec};
use crate::status::{check_spec, Status};

verus! {

/// Minimum over the defined best latencies of a result set, `None` when no
/// target has one. An equal later value never displaces an earlier one.
pub open spec fn min_time(times: Seq<Option<u64>>) -> Option<u64>
    decreases times.len(),
{
    if times.len() == 0 {
        None
    } else {
        match (min_time(times.drop_last()), times.last()) {
            (m, None) => m,
            (None, Some(v)) => Some(v),
            (Some(m), Some(v)) => Some(if v < m { v } else { m }),
        }
    }
}

/// Severity of a whole result set: no targets at all is Unknown, targets
/// but no data is Critical, otherwise the best latency decides.
pub open spec fn classify_spec(times: Seq<Option<u64>>, warn: u64, crit: u64) -> Status {
    if times.len() == 0 {
        Status::Unknown
    } else {
        match min_time(times) {
            None => Status::Critical,
            Some(b) => check_spec(b, warn, crit),
        }
    }
}

/// Index `i` holds the first occurrence of the minimum defined latency `v`.
pub open spec fn is_first_min(times: Seq<Option<u64>>, i: int, v: u64) -> bool {
    &&& 0 <= i < times.len()
    &&& times[i] == Some(v)
    &&& forall|j: int| 0 <= j < i ==> (#[trigger] times[j] matches Some(u) ==> u > v)
}

/// One perfdata element: `'<address>'=<latency-or-U>s;<warn>;<crit>;0`,
/// with a leading space.
pub open spec fn perf_entry(addr: Seq<char>, time: Option<u64>, warn: u64, crit: u64) -> Seq<
    char,
> {
    " '"@ + addr + "'="@ + u_spec(time) + "s;"@ + secs_str(warn as nat) + ";"@ + secs_str(
        crit as nat,
    ) + ";0"@
}

/// Concatenated perfdata of the first `n` targets.
pub open spec fn perfdata_upto(
    addrs: Seq<Seq<char>>,
    times: Seq<Option<u64>>,
    warn: u64,
    crit: u64,
    n: int,
) -> Seq<char>
    decreases n,
{
    if n <= 0 {
        Seq::empty()
    } else {
        perfdata_upto(addrs, times, warn, crit, n - 1) + perf_entry(
            addrs[n - 1],
            times[n - 1],
            warn,
            crit,
        )
    }
}

/// Perfdata of a whole result set, one element per target, in input order.
pub open spec fn perfdata_spec(
    addrs: Seq<Seq<char>>,
    times: Seq<Option<u64>>,
    warn: u64,
    crit: u64,
) -> Seq<char> {
    perfdata_upto(addrs, times, warn, crit, times.len() as int)
}

/// The first `n` resolution warnings, each on a line of its own.
pub open spec fn warnings_upto(warns: Seq<Seq<char>>, n: int) -> Seq<char>
    decreases n,
{
    if n <= 0 {
        Seq::empty()
    } else {
        warnings_upto(warns, n - 1) + "\nwarning: "@ + warns[n - 1]
    }
}

/// All resolution warnings appended to a report.
pub open spec fn warnings_spec(warns: Seq<Seq<char>>) -> Seq<char> {
    warnings_upto(warns, warns.len() as int)
}

/// Label of the best target: the address alone where it equals the host
/// string, `host/address` otherwise.
pub open spec fn best_label(host: Seq<char>, addr: Seq<char>) -> Seq<char> {
    if host == addr {
        addr
    } else {
        host + "/"@ + addr
    }
}

/// Microseconds to the nearest millisecond, halves rounding up.
pub open spec fn ms_round(us: u64) -> nat {
    (us as nat) / 1000 + if (us as nat) % 1000 >= 500 {
        1nat
    } else {
        0nat
    }
}

/// The list of ping targets: one resolved address per target, each with the
/// user-supplied host string it came from, plus the warnings collected for
/// hosts that could not be resolved.
pub struct Targets {
    /// Host strings, one per resolved address.
    pub host: Vec<String>,
    /// Resolved addresses, rendered as text.
    pub addr: Vec<String>,
    /// One warning per host that resolution failed for.
    pub warn: Vec<String>,
}

impl Targets {
    /// Hosts and addresses stay in step.
    pub open spec fn wf(&self) -> bool {
        self.host@.len() == self.addr@.len()
    }

    /// An empty target list.
    pub fn new() -> (t: Targets)
        ensures
            t.wf(),
            t.host@.len() == 0,
            t.addr@.len() == 0,
            t.warn@.len() == 0,
    {
        Targets { host: Vec::new(), addr: Vec::new(), warn: Vec::new() }
    }

    /// Records one resolved target: the address together with the host
    /// string it was resolved from.
    pub fn add_target(&mut self, host: &str, addr: String)
        requires
            old(self).wf(),
        ensures
            final(self).wf(),
            final(self).host.deep_view() == old(self).host.deep_view().push(host@),
            final(self).addr.deep_view() == old(self).addr.deep_view().push(addr@),
            final(self).warn == old(self).warn,
    {
        let ghost prev = *self;
        self.host.push(host.to_owned());
        self.addr.push(addr);
        proof {
            assert(self.host.deep_view() =~= prev.host.deep_view().push(host@));
            assert(self.addr.deep_view() =~= prev.addr.deep_view().push(self.addr@.last()@));
        }
    }

    /// Records that one host could not be resolved, as the warning
    /// `host: message`.
    pub fn add_warning(&mut self, host: &str, msg: &str)
        ensures
            final(self).warn.deep_view() == old(self).warn.deep_view().push(
                host@ + ": "@ + msg@,
            ),
            final(self).host == old(self).host,
            final(self).addr == old(self).addr,
    {
        let ghost prev = *self;
        let mut w = host.to_owned();
        w.append(": ");
        w.append(msg);
        self.warn.push(w);
        proof {
            assert(self.warn.deep_view() =~= prev.warn.deep_view().push(host@ + ": "@ + msg@));
        }
    }
}

/// A finished run: the targets and, in the same order, the best latency
/// found for each.
pub struct PingTimes {
    pub targets: Targets,
    pub times: Vec<Option<u64>>,
}

impl PingTimes {
    /// One best latency per target.
    pub open spec fn wf(&self) -> bool {
        self.targets.wf() && self.times@.len() == self.targets.addr@.len()
    }

    /// Pairs a target list with the best latencies measured for it.
    pub fn new(targets: Targets, times: Vec<Option<u64>>) -> (p: PingTimes)
        requires
            targets.wf(),
            times@.len() == targets.addr@.len(),
        ensures
            p.wf(),
            p.targets == targets,
            p.times == times,
    {
        PingTimes { targets, times }
    }

    /// Finds the target with the minimal latency: its latency, host string
    /// and address. Targets without data never take part; among equal
    /// minima the first wins.
    pub fn min_rtt(&self) -> (r: Option<(u64, String, String)>)
        requires
            self.wf(),
        ensures
            match r {
                None => min_time(self.times@) is None,
                Some(t) => {
                    &&& min_time(self.times@) == Some(t.0)
                    &&& exists|i: int|
                        #[trigger] is_first_min(self.times@, i, t.0)
                            && t.1@ == self.targets.host.deep_view()[i]
                            && t.2@ == self.targets.addr.deep_view()[i]
                },
            },
    {
        let mut best_val: Option<u64> = None;
        let mut best_i: usize = 0;
        let mut i: usize = 0;
        proof {
            assert(self.times@.take(0) =~= Seq::<Option<u64>>::empty());
        }
        while i < self.times.len()
            invariant
                self.wf(),
                i <= self.times@.len(),
                best_val == min_time(self.times@.take(i as int)),
                best_val matches Some(v) ==> best_i < i && is_first_min(self.times@, best_i as int, v),
            decreases self.times@.len() - i,
        {
            proof {
                assert(self.times@.take(i as int + 1).drop_last() =~= self.times@.take(i as int));
                assert(self.times@.take(i as int + 1).last() == self.times@[i as int]);
            }
            let t = self.times[i];
            match t {
                Some(v) => {
                    match best_val {
                        None => {
                            proof {
                                lemma_min_time_none_all_none(self.times@.take(i as int));
                                assert forall|j: int| 0 <= j < i implies (#[trigger] self.times@[j]
                                    matches Some(u) ==> u > v) by {
                                    assert(self.times@.take(i as int)[j] == self.times@[j]);
                                }
                                assert(is_first_min(self.times@, i as int, v));
                            }
                            best_val = Some(v);
                            best_i = i;
                        },
                        Some(b) => {
                            if v < b {
                                proof {
                                    lemma_min_time_is_lower_bound(self.times@.take(i as int));
                                    assert forall|j: int| 0 <= j < i implies (
                                    #[trigger] self.times@[j] matches Some(u) ==> u > v) by {
                                        assert(self.times@.take(i as int)[j] == self.times@[j]);
                                    }
                                    assert(is_first_min(self.times@, i as int, v));
                                }
                                best_val = Some(v);
                                best_i = i;
                            }
                        },
                    }
                },
                None => {},
            }
            i = i + 1;
        }
        proof {
            assert(self.times@.take(self.times@.len() as int) =~= self.times@);
        }
        match best_val {
            None => None,
            Some(v) => {
                let host = self.targets.host[best_i].clone();
                let addr = self.targets.addr[best_i].clone();
                proof {
                    assert(is_first_min(self.times@, best_i as int, v)
                        && host@ == self.targets.host.deep_view()[best_i as int]
                        && addr@ == self.targets.addr.deep_view()[best_i as int]);
                }
                Some((v, host, addr))
            },
        }
    }

    /// Renders the performance data of every target, in input order,
    /// without the leading `|`.
    pub fn perfdata(&self, warn: u64, crit: u64) -> (r: String)
        requires
            self.wf(),
        ensures
            r@ == perfdata_spec(self.targets.addr.deep_view(), self.times@, warn, crit),
    {
        let ghost addrs = self.targets.addr.deep_view();
        let mut res = String::new();
        let mut i: usize = 0;
        while i < self.times.len()
            invariant
                self.wf(),
                i <= self.times@.len(),
                addrs == self.targets.addr.deep_view(),
                res@ == perfdata_upto(addrs, self.times@, warn, crit, i as int),
            decreases self.times@.len() - i,
        {
            res.append(" '");
            res.append(self.targets.addr[i].as_str());
            res.append("'=");
            output::push_u(&mut res, &self.times[i]);
            res.append("s;");
            output::push_secs(&mut res, warn);
            res.append(";");
            output::push_secs(&mut res, crit);
            res.append(";0");
            proof {
                assert(addrs[i as int] == self.targets.addr@[i as int]@);
                assert(res@ =~= perfdata_upto(addrs, self.times@, warn, crit, i as int + 1));
            }
            i = i + 1;
        }
        res
    }
}

impl PingTimes {
    /// Renders the whole report and classifies it: the summary line with
    /// the best target and the perfdata, or the two no-data forms, each
    /// followed by one warning line per unresolved host.
    pub fn evaluate(self, warn: u64, crit: u64) -> (r: (String, Status))
        requires
            self.wf(),
            warn <= crit,
        ensures
            r.1 == classify_spec(self.times@, warn, crit),
            self.times@.len() == 0 ==> r.0@ == "no targets found"@ + warnings_spec(
                self.targets.warn.deep_view(),
            ),
            self.times@.len() > 0 && min_time(self.times@) is None ==> r.0@ == "no data |"@
                + perfdata_spec(self.targets.addr.deep_view(), self.times@, warn, crit)
                + warnings_spec(self.targets.warn.deep_view()),
            min_time(self.times@) matches Some(b) ==> exists|i: int|
                #[trigger] is_first_min(self.times@, i, b) && r.0@ == "best rtt "@ + dec_str(
                    ms_round(b),
                ) + " ms (for "@ + best_label(
                    self.targets.host.deep_view()[i],
                    self.targets.addr.deep_view()[i],
                ) + ") |"@ + perfdata_spec(self.targets.addr.deep_view(), self.times@, warn, crit)
                    + warnings_spec(self.targets.warn.deep_view()),
    {
        let ghost times = self.times@;
        let ghost hostsv = self.targets.host.deep_view();
        let ghost addrsv = self.targets.addr.deep_view();
        let mut out: String;
        let status: Status;
        let ghost mut gi: int = 0;
        if self.times.len() == 0 {
            out = "no targets found".to_owned();
            status = Status::Unknown;
        } else {
            match self.min_rtt() {
                Some(t) => {
                    let (bt, bh, ba) = t;
                    proof {
                        gi = choose|i: int|
                            is_first_min(times, i, bt) && bh@ == hostsv[i] && ba@ == addrsv[i];
                    }
                    let mut s = "best rtt ".to_owned();
                    let ms = bt / 1000 + if bt % 1000 >= 500 {
                        1
                    } else {
                        0
                    };
                    proof {
                        assert(ms as nat == ms_round(bt));
                    }
                    output::push_dec(&mut s, ms);
                    s.append(" ms (for ");
                    let label = output::best(bh.as_str(), ba);
                    s.append(label.as_str());
                    s.append(") |");
                    let pd = self.perfdata(warn, crit);
                    s.append(pd.as_str());
                    proof {
                        assert(s@ =~= "best rtt "@ + dec_str(ms_round(bt)) + " ms (for "@
                            + best_label(hostsv[gi], addrsv[gi]) + ") |"@ + perfdata_spec(
                            addrsv,
                            times,
                            warn,
                            crit,
                        ));
                    }
                    out = s;
                    status = Status::check(bt, warn, crit);
                },
                None => {
                    let mut s = "no data |".to_owned();
                    let pd = self.perfdata(warn, crit);
                    s.append(pd.as_str());
                    out = s;
                    status = Status::Critical;
                },
            }
        }
        let ghost base = out@;
        let ghost warnsv = self.targets.warn.deep_view();
        let mut k: usize = 0;
        while k < self.targets.warn.len()
            invariant
                k <= self.targets.warn@.len(),
                warnsv == self.targets.warn.deep_view(),
                out@ == base + warnings_upto(warnsv, k as int),
            decreases self.targets.warn@.len() - k,
        {
            out.append("\nwarning: ");
            out.append(self.targets.warn[k].as_str());
            proof {
                assert(warnsv[k as int] == self.targets.warn@[k as int]@);
                assert(out@ =~= base + warnings_upto(warnsv, k as int + 1));
            }
            k = k + 1;
        }
        proof {
            assert(out@ =~= base + warnings_spec(warnsv));
        }
        (out, status)
    }
}

/// A result set without a minimum has no defined latency at all.
proof fn lemma_min_time_none_all_none(times: Seq<Option<u64>>)
    requires
        min_time(times) is None,
    ensures
        forall|j: int| 0 <= j < times.len() ==> times[j] is None,
    decreases times.len(),
{
    if times.len() > 0 {
        lemma_min_time_none_all_none(times.drop_last());
        assert(forall|j: int| 0 <= j < times.len() - 1 ==> times[j] == times.drop_last()[j]);
    }
}

/// The minimum defined latency is no larger than any defined latency.
proof fn lemma_min_time_is_lower_bound(times: Seq<Option<u64>>)
    ensures
        forall|j: int| 0 <= j < times.len() ==> (#[trigger] times[j] matches Some(u) ==> (
        min_time(times) matches Some(m) && m <= u)),
    decreases times.len(),
{
    if times.len() > 0 {
        lemma_min_time_is_lower_bound(times.drop_last());
        assert(forall|j: int| 0 <= j < times.len() - 1 ==> times[j] == times.drop_last()[j]);
    }
}

/// Classification depends on nothing but the result set and the thresholds:
/// two equal result sets classified with the same thresholds always give
/// the same severity, so classifying twice never changes the answer.
pub proof fn lemma_classify_consistent(
    a: Seq<Option<u64>>,
    b: Seq<Option<u64>>,
    warn: u64,
    crit: u64,
)
    requires
        a == b,
    ensures
        classify_spec(a, warn, crit) == classify_spec(b, warn, crit),
{
}

} // verus!
