//! The monitor: one owner of all sampled, merged and smoothed state.
use vstd::prelude::*;
use crate::graph::{braille_graph, plot, braille_text, FULL_SCALE, GRAPH_CHAR_WIDTH};
use crate::history::{pushed, History};
use crate::process::{in_table_order, merges, process_table, views, ProcessBy, ProcessInfo, ProcessView};
use crate::sampler::{carry_forward, is_max_of, mean_of, sample_cpu, CpuInfo, GpuInfo};
use crate::smooth::{blend, ema_step, lemma_blend, ANIMATION_DIVISOR, DISPLAY_DIVISOR};

verus! {

/// CPU clock at which the animation's clock level saturates, in MHz.
pub const MAX_CPU_FREQ: u64 = 5500;

/// Rows of the braille graphs that the monitor draws.
pub const GRAPH_ROWS: usize = 2;

/// Smoothed figures: display averages, and slower animation averages of the CPU.
#[derive(Clone, Copy, Debug, PartialEq, Eq, Structural)]
pub struct InterpolatedInfo {
    pub cpu_avg: u64,
    pub cpu_max: u64,
    pub cpu_freq: u64,
    pub cpu_avg_smooth: u64,
    pub cpu_freq_smooth: u64,
    pub cpu_max_smooth: u64,
    pub gpu_clock: u64,
    pub gpu_power: u64,
    pub gpu_util: u64,
}

/// Levels that drive the background animation, each in `0 ..= FULL_SCALE`.
#[derive(Clone, Copy, Debug, PartialEq, Eq, Structural)]
pub struct AnimationLevels {
    pub cpu_avg: u32,
    pub cpu_max: u32,
    pub cpu_freq: u32,
}

/// Facts about the host that are read once.
pub struct SystemIdentity {
    pub cpu_name: String,
    pub architecture: String,
    pub os_name: String,
    pub kernel_name: String,
    pub os_version: String,
}

/// `v / ceiling` in units of `FULL_SCALE`, rounded down and saturating at `FULL_SCALE`.
pub open spec fn level_of(v: int, ceiling: int) -> int {
    let r = v * FULL_SCALE / ceiling;
    if r > FULL_SCALE {
        FULL_SCALE as int
    } else {
        r
    }
}

/// What the monitor holds.
pub struct MonitorView {
    pub cpu_info: CpuInfo,
    pub gpu_info: GpuInfo,
    pub smooth: InterpolatedInfo,
    pub processes: Seq<ProcessView>,
    pub sort_by: ProcessBy,
    pub ram_used: u64,
    pub mem_total: u64,
    pub cpu_history: Seq<u32>,
    pub gpu_history: Seq<u32>,
    pub gpu_name: Seq<char>,
    pub identity: SystemIdentity,
}

impl MonitorView {
    pub open spec fn with_sort_by(self, sort_by: ProcessBy) -> MonitorView {
        MonitorView { sort_by, ..self }
    }

    pub open spec fn with_processes(self, processes: Seq<ProcessView>) -> MonitorView {
        MonitorView { processes, ..self }
    }

    pub open spec fn with_smooth(self, smooth: InterpolatedInfo) -> MonitorView {
        MonitorView { smooth, ..self }
    }

    /// Every GPU figure zero, the GPU history all zero, the GPU name empty:
    /// the state of a host without a GPU.
    pub open spec fn gpu_blank(self) -> bool {
        &&& self.gpu_info == GpuInfo { mem_used: 0, mem_total: 0, clock: 0, power: 0, util: 0 }
        &&& self.smooth.gpu_clock == 0
        &&& self.smooth.gpu_power == 0
        &&& self.smooth.gpu_util == 0
        &&& forall|i: int| 0 <= i < self.gpu_history.len() ==> self.gpu_history[i] == 0
        &&& self.gpu_name.len() == 0
    }
}

/// The telemetry state of one host: raw figures of the last tick, their
/// smoothed averages, the histories of raw utilization and the process table.
pub struct ResourceMonitor {
    identity: SystemIdentity,
    gpu_name: String,
    mem_total: u64,
    cpu_info: CpuInfo,
    gpu_info: GpuInfo,
    smooth: InterpolatedInfo,
    process_info: Vec<ProcessInfo>,
    process_sort_by: ProcessBy,
    ram_used: u64,
    cpu_avgs: History,
    gpu_avgs: History,
}

impl View for ResourceMonitor {
    type V = MonitorView;

    closed spec fn view(&self) -> MonitorView {
        MonitorView {
            cpu_info: self.cpu_info,
            gpu_info: self.gpu_info,
            smooth: self.smooth,
            processes: views(self.process_info@),
            sort_by: self.process_sort_by,
            ram_used: self.ram_used,
            mem_total: self.mem_total,
            cpu_history: self.cpu_avgs@,
            gpu_history: self.gpu_avgs@,
            gpu_name: self.gpu_name@,
            identity: self.identity,
        }
    }
}

impl ResourceMonitor {
    /// A monitor with all figures zero, empty histories of `GRAPH_CHAR_WIDTH`
    /// samples and no processes. Without a GPU (`gpu_name` is `None`) the GPU
    /// name is empty.
    pub fn new(
        identity: SystemIdentity,
        gpu_name: Option<String>,
        physical_cores: usize,
        cpu_count: usize,
        mem_total: u64,
    ) -> (m: ResourceMonitor)
        ensures
            m@.cpu_info == (CpuInfo { physical_cores, cpu_count, cpu_avg: 0, cpu_max: 0, cpu_freq: 0 }),
            m@.gpu_info == (GpuInfo { mem_used: 0, mem_total: 0, clock: 0, power: 0, util: 0 }),
            m@.smooth == (InterpolatedInfo {
                cpu_avg: 0,
                cpu_max: 0,
                cpu_freq: 0,
                cpu_avg_smooth: 0,
                cpu_freq_smooth: 0,
                cpu_max_smooth: 0,
                gpu_clock: 0,
                gpu_power: 0,
                gpu_util: 0,
            }),
            m@.processes.len() == 0,
            m@.sort_by == ProcessBy::Cpu,
            m@.ram_used == 0,
            m@.mem_total == mem_total,
            m@.cpu_history == Seq::new(GRAPH_CHAR_WIDTH as nat, |i: int| 0u32),
            m@.gpu_history == Seq::new(GRAPH_CHAR_WIDTH as nat, |i: int| 0u32),
            (gpu_name is Some) ==> m@.gpu_name == gpu_name.unwrap()@,
            (gpu_name is None) ==> m@.gpu_name.len() == 0,
            (gpu_name is None) ==> m@.gpu_blank(),
            m@.identity == identity,
    {
        let gpu_name = match gpu_name {
            Some(n) => n,
            None => String::new(),
        };
        ResourceMonitor {
            identity,
            gpu_name,
            mem_total,
            cpu_info: CpuInfo { physical_cores, cpu_count, cpu_avg: 0, cpu_max: 0, cpu_freq: 0 },
            gpu_info: GpuInfo::zeroed(),
            smooth: InterpolatedInfo {
                cpu_avg: 0,
                cpu_max: 0,
                cpu_freq: 0,
                cpu_avg_smooth: 0,
                cpu_freq_smooth: 0,
                cpu_max_smooth: 0,
                gpu_clock: 0,
                gpu_power: 0,
                gpu_util: 0,
            },
            process_info: Vec::new(),
            process_sort_by: ProcessBy::Cpu,
            ram_used: 0,
            cpu_avgs: History::new(GRAPH_CHAR_WIDTH),
            gpu_avgs: History::new(GRAPH_CHAR_WIDTH),
        }
    }

    pub fn set_process_sorting(&mut self, sort_by: ProcessBy)
        ensures
            final(self)@ == old(self)@.with_sort_by(sort_by),
    {
        self.process_sort_by = sort_by;
    }

    /// Takes one tick's readings: the average CPU utilization, each logical
    /// CPU's utilization and clock, the memory in use, and the GPU reading if
    /// the query gave one. A missing GPU reading keeps the last good one. Both
    /// histories take this tick's raw utilization.
    pub fn update_cpu_gpu_mem(
        &mut self,
        cpu_avg: u32,
        usages: &[u32],
        freqs: &[u64],
        ram_used: u64,
        gpu: Option<GpuInfo>,
    )
        ensures
            final(self)@.cpu_info.physical_cores == old(self)@.cpu_info.physical_cores,
            final(self)@.cpu_info.cpu_count == old(self)@.cpu_info.cpu_count,
            final(self)@.cpu_info.cpu_avg == cpu_avg,
            is_max_of(final(self)@.cpu_info.cpu_max, usages@),
            final(self)@.cpu_info.cpu_freq == mean_of(freqs@),
            final(self)@.ram_used == ram_used,
            final(self)@.gpu_info == (match gpu {
                Some(g) => g,
                None => old(self)@.gpu_info,
            }),
            final(self)@.cpu_history == pushed(old(self)@.cpu_history, cpu_avg),
            final(self)@.gpu_history == pushed(old(self)@.gpu_history, final(self)@.gpu_info.util),
            final(self)@.smooth == old(self)@.smooth,
            final(self)@.processes == old(self)@.processes,
            final(self)@.sort_by == old(self)@.sort_by,
            final(self)@.mem_total == old(self)@.mem_total,
            final(self)@.gpu_name == old(self)@.gpu_name,
            final(self)@.identity == old(self)@.identity,
            old(self)@.gpu_blank() && (gpu is None) ==> final(self)@.gpu_blank(),
    {
        self.cpu_info = sample_cpu(&self.cpu_info, cpu_avg, usages, freqs);
        self.ram_used = ram_used;
        self.gpu_info = carry_forward(self.gpu_info, gpu);
        self.cpu_avgs.push(cpu_avg);
        self.gpu_avgs.push(self.gpu_info.util);
        proof {
            let before = old(self)@.gpu_history;
            let h = self@.gpu_history;
            if old(self)@.gpu_blank() && gpu is None && before.len() > 0 {
                assert forall|i: int| 0 <= i < h.len() implies h[i] == 0 by {
                    if i > 0 {
                        assert(h[i] == before[i - 1]);
                    }
                }
            }
        }
    }

    /// Replaces the process table with `raw` merged by name and ordered by the
    /// monitor's sort key (see `process_table`).
    pub fn update_processes(&mut self, raw: &Vec<ProcessInfo>)
        ensures
            merges(views(raw@), final(self)@.processes),
            in_table_order(views(raw@), final(self)@.processes, old(self)@.sort_by),
            final(self)@ == old(self)@.with_processes(final(self)@.processes),
    {
        self.process_info = process_table(raw, self.process_sort_by);
    }

    /// One visual tick: every smoothed figure takes one step toward its raw
    /// figure, display averages with `DISPLAY_DIVISOR`, animation averages
    /// with `ANIMATION_DIVISOR`. Returns the animation levels: the smoothed
    /// CPU average and maximum against 100 %, and the smoothed clock against
    /// `MAX_CPU_FREQ`, each saturating at `FULL_SCALE`.
    pub fn update_visual(&mut self) -> (a: AnimationLevels)
        ensures
            ({
                let c = old(self)@.cpu_info;
                let g = old(self)@.gpu_info;
                let s = old(self)@.smooth;
                let d = DISPLAY_DIVISOR as int;
                let e = ANIMATION_DIVISOR as int;
                final(self)@.smooth == (InterpolatedInfo {
                    cpu_avg: blend(s.cpu_avg as int, c.cpu_avg as int, d) as u64,
                    cpu_max: blend(s.cpu_max as int, c.cpu_max as int, d) as u64,
                    cpu_freq: blend(s.cpu_freq as int, c.cpu_freq as int, d) as u64,
                    cpu_avg_smooth: blend(s.cpu_avg_smooth as int, c.cpu_avg as int, e) as u64,
                    cpu_freq_smooth: blend(s.cpu_freq_smooth as int, c.cpu_freq as int, e) as u64,
                    cpu_max_smooth: blend(s.cpu_max_smooth as int, c.cpu_max as int, e) as u64,
                    gpu_clock: blend(s.gpu_clock as int, g.clock as int, d) as u64,
                    gpu_power: blend(s.gpu_power as int, g.power as int, d) as u64,
                    gpu_util: blend(s.gpu_util as int, g.util as int, d) as u64,
                })
            }),
            final(self)@ == old(self)@.with_smooth(final(self)@.smooth),
            a.cpu_avg == level_of(final(self)@.smooth.cpu_avg_smooth as int, FULL_SCALE as int),
            a.cpu_max == level_of(final(self)@.smooth.cpu_max_smooth as int, FULL_SCALE as int),
            a.cpu_freq == level_of(final(self)@.smooth.cpu_freq_smooth as int, MAX_CPU_FREQ as int),
            old(self)@.gpu_blank() ==> final(self)@.gpu_blank(),
    {
        let c = self.cpu_info;
        let g = self.gpu_info;
        let s = self.smooth;
        self.smooth = InterpolatedInfo {
            cpu_avg: ema_step(s.cpu_avg, c.cpu_avg as u64, DISPLAY_DIVISOR),
            cpu_max: ema_step(s.cpu_max, c.cpu_max as u64, DISPLAY_DIVISOR),
            cpu_freq: ema_step(s.cpu_freq, c.cpu_freq, DISPLAY_DIVISOR),
            cpu_avg_smooth: ema_step(s.cpu_avg_smooth, c.cpu_avg as u64, ANIMATION_DIVISOR),
            cpu_freq_smooth: ema_step(s.cpu_freq_smooth, c.cpu_freq, ANIMATION_DIVISOR),
            cpu_max_smooth: ema_step(s.cpu_max_smooth, c.cpu_max as u64, ANIMATION_DIVISOR),
            gpu_clock: ema_step(s.gpu_clock, g.clock as u64, DISPLAY_DIVISOR),
            gpu_power: ema_step(s.gpu_power, g.power as u64, DISPLAY_DIVISOR),
            gpu_util: ema_step(s.gpu_util, g.util as u64, DISPLAY_DIVISOR),
        };
        proof {
            lemma_blend(0, 0, DISPLAY_DIVISOR as int);
        }
        AnimationLevels {
            cpu_avg: level(self.smooth.cpu_avg_smooth, FULL_SCALE as u64),
            cpu_max: level(self.smooth.cpu_max_smooth, FULL_SCALE as u64),
            cpu_freq: level(self.smooth.cpu_freq_smooth, MAX_CPU_FREQ),
        }
    }
}

/// `level_of(v, ceiling)`.
fn level(v: u64, ceiling: u64) -> (r: u32)
    requires
        ceiling > 0,
    ensures
        r == level_of(v as int, ceiling as int),
{
    let q = (v as u128) * (FULL_SCALE as u128) / (ceiling as u128);
    if q > FULL_SCALE as u128 {
        FULL_SCALE
    } else {
        q as u32
    }
}


impl ResourceMonitor {
    pub fn identity(&self) -> (r: &SystemIdentity)
        ensures
            *r == self@.identity,
    {
        &self.identity
    }

    /// The GPU's name; empty without a GPU.
    pub fn gpu_name(&self) -> (r: &str)
        ensures
            r@ == self@.gpu_name,
    {
        self.gpu_name.as_str()
    }

    pub fn cpu_info(&self) -> (r: CpuInfo)
        ensures
            r == self@.cpu_info,
    {
        self.cpu_info
    }

    pub fn gpu_info(&self) -> (r: GpuInfo)
        ensures
            r == self@.gpu_info,
    {
        self.gpu_info
    }

    pub fn smoothed(&self) -> (r: InterpolatedInfo)
        ensures
            r == self@.smooth,
    {
        self.smooth
    }

    pub fn ram_used(&self) -> (r: u64)
        ensures
            r == self@.ram_used,
    {
        self.ram_used
    }

    pub fn mem_total(&self) -> (r: u64)
        ensures
            r == self@.mem_total,
    {
        self.mem_total
    }

    pub fn process_sorting(&self) -> (r: ProcessBy)
        ensures
            r == self@.sort_by,
    {
        self.process_sort_by
    }

    /// The process table of the last process refresh.
    pub fn processes(&self) -> (r: &Vec<ProcessInfo>)
        ensures
            views(r@) == self@.processes,
    {
        &self.process_info
    }

    /// Raw CPU utilization of the last ticks, newest first.
    pub fn cpu_history(&self) -> (r: &[u32])
        ensures
            r@ == self@.cpu_history,
    {
        self.cpu_avgs.samples()
    }

    /// Raw GPU utilization of the last ticks, newest first.
    pub fn gpu_history(&self) -> (r: &[u32])
        ensures
            r@ == self@.gpu_history,
    {
        self.gpu_avgs.samples()
    }

    /// The CPU history as a braille graph of `GRAPH_ROWS` rows.
    pub fn cpu_graph(&self) -> (r: String)
        ensures
            self@.cpu_history.len() == 0 ==> r@.len() == 0,
            self@.cpu_history.len() > 0 ==> r@ == braille_text(
                plot(self@.cpu_history, 4 * GRAPH_ROWS as int),
                GRAPH_ROWS as int,
            ),
    {
        braille_graph(self.cpu_avgs.samples(), GRAPH_ROWS)
    }

    /// The GPU history as a braille graph of `GRAPH_ROWS` rows.
    pub fn gpu_graph(&self) -> (r: String)
        ensures
            self@.gpu_history.len() == 0 ==> r@.len() == 0,
            self@.gpu_history.len() > 0 ==> r@ == braille_text(
                plot(self@.gpu_history, 4 * GRAPH_ROWS as int),
                GRAPH_ROWS as int,
            ),
    {
        braille_graph(self.gpu_avgs.samples(), GRAPH_ROWS)
    }
}

} // verus!
