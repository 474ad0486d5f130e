//! The snapshot builder.
//!
//! A `Counter` holds one poll cycle's parsed metric values plus the log of
//! recoverable failures met while producing them. The caller reads each
//! source (three proc files and the GPU diagnostic command's output)
//! outside the library and hands the raw bytes in; `calculate_stats`
//! folds them into the snapshot so that a failure in one metric group
//! never prevents the others from completing. The error log is cleared at
//! the start of every poll, so it always describes the latest poll alone.

use vstd::prelude::*;
use crate::rules::Rule;
use crate::rules::capture;
use crate::rules::spec_capture;
use crate::extract::average_matching_line;
use crate::extract::avg_value;
use crate::extract::spec_fields;
use crate::extract::spec_lines;
use crate::extract::split_commas;
use crate::extract::split_lines;

verus! {

/// The mathematical value of the nine GPU metrics of one snapshot.
#[verifier::ext_equal]
pub struct GpuView {
    pub max_graphics_clock: int,
    pub current_graphics_clock: int,
    pub max_memory_clock: int,
    pub current_memory_clock: int,
    pub temperature: int,
    pub memory_used: int,
    pub memory_total: int,
    pub graphics_utilization: int,
    pub memory_utilization: int,
}

/// The mathematical value of a whole snapshot: every metric plus the
/// error log of the poll that produced it.
#[verifier::ext_equal]
pub struct CounterView {
    pub errors: Seq<Seq<char>>,
    pub cpu_mhz: int,
    pub load_avg: Seq<u8>,
    pub mem_used: int,
    pub mem_total: int,
    pub gpu: GpuView,
}

/// One poll cycle's state: parsed metric values and the error log.
/// Numeric fields default to zero until first successfully populated.
pub struct Counter {
    pub errors: Vec<String>,
    pub cpu_mhz: i64,
    pub load_avg: Vec<u8>,
    pub mem_used: i64,
    pub mem_total: i64,
    pub gpu_max_graphics_clock: i64,
    pub gpu_current_graphics_clock: i64,
    pub gpu_max_memory_clock: i64,
    pub gpu_current_memory_clock: i64,
    pub gpu_temperature: i64,
    pub gpu_memory_used: i64,
    pub gpu_memory_total: i64,
    pub gpu_graphics_utilization: i64,
    pub gpu_memory_utilization: i64,
}

impl View for Counter {
    type V = CounterView;

    open spec fn view(&self) -> CounterView {
        CounterView {
            errors: self.errors.deep_view(),
            cpu_mhz: self.cpu_mhz as int,
            load_avg: self.load_avg@,
            mem_used: self.mem_used as int,
            mem_total: self.mem_total as int,
            gpu: GpuView {
                max_graphics_clock: self.gpu_max_graphics_clock as int,
                current_graphics_clock: self.gpu_current_graphics_clock as int,
                max_memory_clock: self.gpu_max_memory_clock as int,
                current_memory_clock: self.gpu_current_memory_clock as int,
                temperature: self.gpu_temperature as int,
                memory_used: self.gpu_memory_used as int,
                memory_total: self.gpu_memory_total as int,
                graphics_utilization: self.gpu_graphics_utilization as int,
                memory_utilization: self.gpu_memory_utilization as int,
            },
        }
    }
}

/// The snapshot every counter starts from: all metrics zero, no errors.
pub open spec fn initial_view() -> CounterView {
    CounterView {
        errors: Seq::empty(),
        cpu_mhz: 0,
        load_avg: Seq::empty(),
        mem_used: 0,
        mem_total: 0,
        gpu: GpuView {
            max_graphics_clock: 0,
            current_graphics_clock: 0,
            max_memory_clock: 0,
            current_memory_clock: 0,
            temperature: 0,
            memory_used: 0,
            memory_total: 0,
            graphics_utilization: 0,
            memory_utilization: 0,
        },
    }
}

/// The CPU clock after a poll: the mean of the `cpu MHz` lines of the
/// given `/proc/cpuinfo` text, or the prior value when the text could not
/// be read or holds no such line.
pub open spec fn cpu_after(prior: int, inp: Option<Seq<u8>>) -> int {
    match inp {
        None => prior,
        Some(t) => match avg_value(Rule::CpuMhz, t) {
            Some(v) => v,
            None => prior,
        },
    }
}

pub open spec fn cpu_errors(inp: Option<Seq<u8>>) -> Seq<Seq<char>> {
    match inp {
        None => seq!["could not read /proc/cpuinfo"@],
        Some(t) => if avg_value(Rule::CpuMhz, t) is None {
            seq!["no cpu MHz data in /proc/cpuinfo"@]
        } else {
            Seq::empty()
        },
    }
}

/// The load-average text after a poll: the captured three-figure token,
/// the whole text when the pattern matches nowhere (degrade to raw), or
/// the prior value when the text could not be read.
pub open spec fn load_after(prior: Seq<u8>, inp: Option<Seq<u8>>) -> Seq<u8> {
    match inp {
        None => prior,
        Some(t) => match spec_capture(Rule::LoadAverage, t) {
            Some(c) => c,
            None => t,
        },
    }
}

pub open spec fn load_errors(inp: Option<Seq<u8>>) -> Seq<Seq<char>> {
    match inp {
        None => seq!["could not read /proc/loadavg"@],
        Some(_) => Seq::empty(),
    }
}

/// The pair (memory used, memory total) after a poll. Used memory is
/// always recomputed as total minus available; when either reading is
/// missing both fields keep their prior values, so the pair stays
/// mutually consistent.
pub open spec fn mem_after(prior_used: int, prior_total: int, inp: Option<Seq<u8>>) -> (int, int) {
    match inp {
        None => (prior_used, prior_total),
        Some(t) => {
            let tot = avg_value(Rule::MemTotal, t);
            let avail = avg_value(Rule::MemAvailable, t);
            if tot is Some && avail is Some {
                (tot->Some_0 - avail->Some_0, tot->Some_0)
            } else {
                (prior_used, prior_total)
            }
        },
    }
}

pub open spec fn mem_errors(inp: Option<Seq<u8>>) -> Seq<Seq<char>> {
    match inp {
        None => seq!["could not read /proc/meminfo"@],
        Some(t) => (if avg_value(Rule::MemTotal, t) is None {
            seq!["no MemTotal data in /proc/meminfo"@]
        } else {
            Seq::<Seq<char>>::empty()
        }) + (if avg_value(Rule::MemAvailable, t) is None {
            seq!["no MemAvailable data in /proc/meminfo"@]
        } else {
            Seq::<Seq<char>>::empty()
        }),
    }
}

/// The value of the `k`-th GPU metric in the diagnostic tool's output:
/// the leading number of the `k`-th comma-separated field of the second
/// output line, if that line and field exist and carry a number.
pub open spec fn gpu_field_value(out: Seq<u8>, k: int) -> Option<int> {
    let lines = spec_lines(out);
    if lines.len() < 2 {
        None
    } else {
        let fields = spec_fields(lines[1]);
        if 0 <= k < fields.len() {
            avg_value(Rule::LeadingNumber, fields[k])
        } else {
            None
        }
    }
}

/// One GPU metric after a poll: freshly extracted when possible,
/// otherwise the prior value.
pub open spec fn gpu_slot(prior: int, inp: Option<Seq<u8>>, k: int) -> int {
    match inp {
        None => prior,
        Some(out) => match gpu_field_value(out, k) {
            Some(v) => v,
            None => prior,
        },
    }
}

/// All nine GPU metrics after a poll. They are always derived from one
/// single tool invocation, so the nine values are mutually consistent.
pub open spec fn gpu_after(prior: GpuView, inp: Option<Seq<u8>>) -> GpuView {
    GpuView {
        max_graphics_clock: gpu_slot(prior.max_graphics_clock, inp, 0),
        current_graphics_clock: gpu_slot(prior.current_graphics_clock, inp, 1),
        max_memory_clock: gpu_slot(prior.max_memory_clock, inp, 2),
        current_memory_clock: gpu_slot(prior.current_memory_clock, inp, 3),
        temperature: gpu_slot(prior.temperature, inp, 4),
        memory_used: gpu_slot(prior.memory_used, inp, 5),
        memory_total: gpu_slot(prior.memory_total, inp, 6),
        graphics_utilization: gpu_slot(prior.graphics_utilization, inp, 7),
        memory_utilization: gpu_slot(prior.memory_utilization, inp, 8),
    }
}

pub open spec fn gpu_errors(inp: Option<Seq<u8>>) -> Seq<Seq<char>> {
    match inp {
        None => seq!["GPU stats: failed to invoke the diagnostic command"@],
        Some(out) => {
            let lines = spec_lines(out);
            if lines.len() < 2 {
                seq!["GPU stats: unexpected number of output lines"@]
            } else {
                (if lines.len() != 2 {
                    seq!["GPU stats: unexpected number of output lines"@]
                } else {
                    Seq::<Seq<char>>::empty()
                }) + (if spec_fields(lines[1]).len() != 9 {
                    seq!["GPU stats: unexpected number of fields"@]
                } else {
                    Seq::<Seq<char>>::empty()
                })
            }
        },
    }
}

/// One full poll: every metric group folded in independently, and the
/// error log rebuilt from this poll's failures alone.
pub open spec fn spec_refresh(
    prior: CounterView,
    cpu: Option<Seq<u8>>,
    load: Option<Seq<u8>>,
    mem: Option<Seq<u8>>,
    gpu: Option<Seq<u8>>,
) -> CounterView {
    let m = mem_after(prior.mem_used, prior.mem_total, mem);
    CounterView {
        errors: cpu_errors(cpu) + load_errors(load) + mem_errors(mem) + gpu_errors(gpu),
        cpu_mhz: cpu_after(prior.cpu_mhz, cpu),
        load_avg: load_after(prior.load_avg, load),
        mem_used: m.0,
        mem_total: m.1,
        gpu: gpu_after(prior.gpu, gpu),
    }
}

impl Counter {
    /// A counter with every metric at zero and an empty error log.
    pub fn new() -> (c: Counter)
        ensures
            c@ == initial_view(),
    {
        let c = Counter {
            errors: Vec::new(),
            cpu_mhz: 0,
            load_avg: Vec::new(),
            mem_used: 0,
            mem_total: 0,
            gpu_max_graphics_clock: 0,
            gpu_current_graphics_clock: 0,
            gpu_max_memory_clock: 0,
            gpu_current_memory_clock: 0,
            gpu_temperature: 0,
            gpu_memory_used: 0,
            gpu_memory_total: 0,
            gpu_graphics_utilization: 0,
            gpu_memory_utilization: 0,
        };
        proof {
            assert(c@ =~~= initial_view());
        }
        c
    }

    /// Take the raw bytes of `/proc/loadavg` (or `None` when it could not
    /// be read) and update the load-average text.
    pub fn get_load_avg(&mut self, contents: Option<Vec<u8>>)
        ensures
            final(self)@ == (CounterView {
                load_avg: load_after(old(self)@.load_avg, contents.deep_view()),
                errors: old(self)@.errors + load_errors(contents.deep_view()),
                ..old(self)@
            }),
    {
        match contents {
            None => {
                self.errors.push("could not read /proc/loadavg".to_owned());
            },
            Some(t) => {
                proof {
                    assert(t.deep_view() =~= t@);
                }
                match capture(Rule::LoadAverage, t.as_slice()) {
                    Some(c) => {
                        self.load_avg = c;
                    },
                    None => {
                        self.load_avg = t;
                    },
                }
            },
        }
        proof {
            assert(self@ =~~= (CounterView {
                load_avg: load_after(old(self)@.load_avg, contents.deep_view()),
                errors: old(self)@.errors + load_errors(contents.deep_view()),
                ..old(self)@
            }));
        }
    }

    /// Take the raw bytes of `/proc/meminfo` (or `None` when it could not
    /// be read) and update total and used memory, in kilobytes as the
    /// source reports them.
    pub fn get_mem_info(&mut self, contents: Option<Vec<u8>>)
        ensures
            final(self)@ == (CounterView {
                mem_used: mem_after(
                    old(self)@.mem_used,
                    old(self)@.mem_total,
                    contents.deep_view(),
                ).0,
                mem_total: mem_after(
                    old(self)@.mem_used,
                    old(self)@.mem_total,
                    contents.deep_view(),
                ).1,
                errors: old(self)@.errors + mem_errors(contents.deep_view()),
                ..old(self)@
            }),
    {
        match contents {
            None => {
                self.errors.push("could not read /proc/meminfo".to_owned());
            },
            Some(t) => {
                proof {
                    assert(t.deep_view() =~= t@);
                }
                let tot = average_matching_line(t.as_slice(), Rule::MemTotal);
                let avail = average_matching_line(t.as_slice(), Rule::MemAvailable);
                match (tot, avail) {
                    (Some(tv), Some(av)) => {
                        self.mem_total = tv as i64;
                        self.mem_used = tv as i64 - av as i64;
                    },
                    (t_opt, a_opt) => {
                        match t_opt {
                            None => {
                                self.errors.push("no MemTotal data in /proc/meminfo".to_owned());
                            },
                            Some(_) => {},
                        }
                        match a_opt {
                            None => {
                                self.errors.push(
                                    "no MemAvailable data in /proc/meminfo".to_owned(),
                                );
                            },
                            Some(_) => {},
                        }
                    },
                }
            },
        }
        proof {
            assert(self@ =~~= (CounterView {
                mem_used: mem_after(
                    old(self)@.mem_used,
                    old(self)@.mem_total,
                    contents.deep_view(),
                ).0,
                mem_total: mem_after(
                    old(self)@.mem_used,
                    old(self)@.mem_total,
                    contents.deep_view(),
                ).1,
                errors: old(self)@.errors + mem_errors(contents.deep_view()),
                ..old(self)@
            }));
        }
    }

    /// Take the GPU diagnostic command's standard output (or `None` when
    /// the command could not be run or its output was not text) and
    /// update the nine GPU metrics.
    #[verifier::rlimit(100)]
    pub fn get_gpu_stats(&mut self, output: Option<Vec<u8>>)
        ensures
            final(self)@ == (CounterView {
                gpu: gpu_after(old(self)@.gpu, output.deep_view()),
                errors: old(self)@.errors + gpu_errors(output.deep_view()),
                ..old(self)@
            }),
    {
        match output {
            None => {
                self.errors.push("GPU stats: failed to invoke the diagnostic command".to_owned());
            },
            Some(out) => {
                proof {
                    assert(out.deep_view() =~= out@);
                }
                let lines = split_lines(out.as_slice());
                if lines.len() < 2 {
                    self.errors.push("GPU stats: unexpected number of output lines".to_owned());
                } else {
                    if lines.len() != 2 {
                        self.errors.push(
                            "GPU stats: unexpected number of output lines".to_owned(),
                        );
                    }
                    proof {
                        assert(lines@[1]@ =~= lines.deep_view()[1]);
                    }
                    let row: &Vec<u8> = &lines[1];
                    let fields = split_commas(row.as_slice());
                    if fields.len() != 9 {
                        self.errors.push("GPU stats: unexpected number of fields".to_owned());
                    }
                    if fields.len() > 0 {
                        proof {
                            assert(fields@[0]@ =~= fields.deep_view()[0]);
                        }
                        match average_matching_line(fields[0].as_slice(), Rule::LeadingNumber) {
                            Some(v) => {
                                self.gpu_max_graphics_clock = v as i64;
                            },
                            None => {},
                        }
                    }
                    if fields.len() > 1 {
                        proof {
                            assert(fields@[1]@ =~= fields.deep_view()[1]);
                        }
                        match average_matching_line(fields[1].as_slice(), Rule::LeadingNumber) {
                            Some(v) => {
                                self.gpu_current_graphics_clock = v as i64;
                            },
                            None => {},
                        }
                    }
                    if fields.len() > 2 {
                        proof {
                            assert(fields@[2]@ =~= fields.deep_view()[2]);
                        }
                        match average_matching_line(fields[2].as_slice(), Rule::LeadingNumber) {
                            Some(v) => {
                                self.gpu_max_memory_clock = v as i64;
                            },
                            None => {},
                        }
                    }
                    if fields.len() > 3 {
                        proof {
                            assert(fields@[3]@ =~= fields.deep_view()[3]);
                        }
                        match average_matching_line(fields[3].as_slice(), Rule::LeadingNumber) {
                            Some(v) => {
                                self.gpu_current_memory_clock = v as i64;
                            },
                            None => {},
                        }
                    }
                    if fields.len() > 4 {
                        proof {
                            assert(fields@[4]@ =~= fields.deep_view()[4]);
                        }
                        match average_matching_line(fields[4].as_slice(), Rule::LeadingNumber) {
                            Some(v) => {
                                self.gpu_temperature = v as i64;
                            },
                            None => {},
                        }
                    }
                    if fields.len() > 5 {
                        proof {
                            assert(fields@[5]@ =~= fields.deep_view()[5]);
                        }
                        match average_matching_line(fields[5].as_slice(), Rule::LeadingNumber) {
                            Some(v) => {
                                self.gpu_memory_used = v as i64;
                            },
                            None => {},
                        }
                    }
                    if fields.len() > 6 {
                        proof {
                            assert(fields@[6]@ =~= fields.deep_view()[6]);
                        }
                        match average_matching_line(fields[6].as_slice(), Rule::LeadingNumber) {
                            Some(v) => {
                                self.gpu_memory_total = v as i64;
                            },
                            None => {},
                        }
                    }
                    if fields.len() > 7 {
                        proof {
                            assert(fields@[7]@ =~= fields.deep_view()[7]);
                        }
                        match average_matching_line(fields[7].as_slice(), Rule::LeadingNumber) {
                            Some(v) => {
                                self.gpu_graphics_utilization = v as i64;
                            },
                            None => {},
                        }
                    }
                    if fields.len() > 8 {
                        proof {
                            assert(fields@[8]@ =~= fields.deep_view()[8]);
                        }
                        match average_matching_line(fields[8].as_slice(), Rule::LeadingNumber) {
                            Some(v) => {
                                self.gpu_memory_utilization = v as i64;
                            },
                            None => {},
                        }
                    }
                }
            },
        }
        proof {
            assert(self@ =~~= (CounterView {
                gpu: gpu_after(old(self)@.gpu, output.deep_view()),
                errors: old(self)@.errors + gpu_errors(output.deep_view()),
                ..old(self)@
            }));
        }
    }

    /// One full poll cycle: clear the error log, then fold in the CPU
    /// clock, the load average, the memory figures and the GPU metrics,
    /// each from the bytes of its source (`None` marks a source that
    /// could not be read). A failing source leaves its own metrics at
    /// their prior values and never prevents the other groups from
    /// completing.
    pub fn calculate_stats(
        &mut self,
        cpuinfo: Option<Vec<u8>>,
        loadavg: Option<Vec<u8>>,
        meminfo: Option<Vec<u8>>,
        gpu_output: Option<Vec<u8>>,
    )
        ensures
            final(self)@ == spec_refresh(
                old(self)@,
                cpuinfo.deep_view(),
                loadavg.deep_view(),
                meminfo.deep_view(),
                gpu_output.deep_view(),
            ),
    {
        self.errors = Vec::new();
        match cpuinfo {
            None => {
                self.errors.push("could not read /proc/cpuinfo".to_owned());
            },
            Some(t) => {
                proof {
                    assert(t.deep_view() =~= t@);
                }
                match average_matching_line(t.as_slice(), Rule::CpuMhz) {
                    Some(v) => {
                        self.cpu_mhz = v as i64;
                    },
                    None => {
                        self.errors.push("no cpu MHz data in /proc/cpuinfo".to_owned());
                    },
                }
            },
        }
        self.get_load_avg(loadavg);
        self.get_mem_info(meminfo);
        self.get_gpu_stats(gpu_output);
        proof {
            assert(self@ =~~= spec_refresh(
                old(self)@,
                cpuinfo.deep_view(),
                loadavg.deep_view(),
                meminfo.deep_view(),
                gpu_output.deep_view(),
            ));
        }
    }
}

/// Refreshing is idempotent: a second poll from the same source bytes
/// reproduces the first poll's snapshot exactly, error log included,
/// whatever state the counter started from.
pub proof fn lemma_refresh_idempotent(
    prior: CounterView,
    cpu: Option<Seq<u8>>,
    load: Option<Seq<u8>>,
    mem: Option<Seq<u8>>,
    gpu: Option<Seq<u8>>,
)
    ensures
        spec_refresh(spec_refresh(prior, cpu, load, mem, gpu), cpu, load, mem, gpu) == spec_refresh(
            prior,
            cpu,
            load,
            mem,
            gpu,
        ),
{
    let s1 = spec_refresh(prior, cpu, load, mem, gpu);
    let s2 = spec_refresh(s1, cpu, load, mem, gpu);
    assert(s2 =~~= s1);
}

/// A poll whose sources are all present and well formed reports no
/// error: the CPU text yields a clock, the memory text yields both
/// readings, and the GPU output has exactly two lines and nine fields.
pub proof fn lemma_clean_poll_no_errors(
    prior: CounterView,
    cpu: Seq<u8>,
    load: Seq<u8>,
    mem: Seq<u8>,
    gpu: Seq<u8>,
)
    requires
        avg_value(Rule::CpuMhz, cpu) is Some,
        avg_value(Rule::MemTotal, mem) is Some,
        avg_value(Rule::MemAvailable, mem) is Some,
        spec_lines(gpu).len() == 2,
        spec_fields(spec_lines(gpu)[1]).len() == 9,
    ensures
        spec_refresh(prior, Some(cpu), Some(load), Some(mem), Some(gpu)).errors.len() == 0,
{
}

/// A poll whose sources all yield fresh values overwrites the whole
/// snapshot: the result does not depend on the state the counter was in
/// before, so no stale metric can survive such a poll.
pub proof fn lemma_full_poll_overwrites(
    p1: CounterView,
    p2: CounterView,
    cpu: Seq<u8>,
    load: Seq<u8>,
    mem: Seq<u8>,
    gpu: Seq<u8>,
)
    requires
        avg_value(Rule::CpuMhz, cpu) is Some,
        avg_value(Rule::MemTotal, mem) is Some,
        avg_value(Rule::MemAvailable, mem) is Some,
        forall|k: int| 0 <= k < 9 ==> gpu_field_value(gpu, k) is Some,
    ensures
        spec_refresh(p1, Some(cpu), Some(load), Some(mem), Some(gpu)) == spec_refresh(
            p2,
            Some(cpu),
            Some(load),
            Some(mem),
            Some(gpu),
        ),
{
    assert(gpu_field_value(gpu, 0) is Some);
    assert(gpu_field_value(gpu, 1) is Some);
    assert(gpu_field_value(gpu, 2) is Some);
    assert(gpu_field_value(gpu, 3) is Some);
    assert(gpu_field_value(gpu, 4) is Some);
    assert(gpu_field_value(gpu, 5) is Some);
    assert(gpu_field_value(gpu, 6) is Some);
    assert(gpu_field_value(gpu, 7) is Some);
    assert(gpu_field_value(gpu, 8) is Some);
    assert(spec_refresh(p1, Some(cpu), Some(load), Some(mem), Some(gpu)) =~~= spec_refresh(
        p2,
        Some(cpu),
        Some(load),
        Some(mem),
        Some(gpu),
    ));
}

/// Used memory is always recomputed from the two readings of the same
/// poll, never carried over: whenever the memory text yields both a
/// total and an available figure, the refreshed snapshot holds that
/// total, and exactly their difference as used memory.
pub proof fn lemma_mem_used_recomputed(
    prior: CounterView,
    cpu: Option<Seq<u8>>,
    load: Option<Seq<u8>>,
    mem: Seq<u8>,
    gpu: Option<Seq<u8>>,
)
    requires
        avg_value(Rule::MemTotal, mem) is Some,
        avg_value(Rule::MemAvailable, mem) is Some,
    ensures
        spec_refresh(prior, cpu, load, Some(mem), gpu).mem_total == avg_value(
            Rule::MemTotal,
            mem,
        )->Some_0,
        spec_refresh(prior, cpu, load, Some(mem), gpu).mem_used == avg_value(
            Rule::MemTotal,
            mem,
        )->Some_0 - avg_value(Rule::MemAvailable, mem)->Some_0,
{
}

} // verus!
