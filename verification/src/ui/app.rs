use vstd::prelude::*;

use crate::collect::process::SortBy;
use crate::ui::profile_view::{clamp_scroll, clamped_scroll};
use crate::ui::sparkline::{keep_last, RingBuffer};

verus! {

/// How many samples each history keeps.
pub const HISTORY_LEN: usize = 120;

/// The views of the monitor, in the order that Tab cycles through them.
#[derive(Clone, Copy, Debug, PartialEq, Eq, Structural)]
pub enum Tab {
    Overview,
    Cpu,
    Gpu,
    Processes,
}

/// Position of a tab in the cycle.
pub open spec fn tab_position(t: Tab) -> int {
    match t {
        Tab::Overview => 0,
        Tab::Cpu => 1,
        Tab::Gpu => 2,
        Tab::Processes => 3,
    }
}

/// The tab at a position; positions past the last one give the first tab.
pub open spec fn tab_at(i: int) -> Tab {
    if i == 1 {
        Tab::Cpu
    } else if i == 2 {
        Tab::Gpu
    } else if i == 3 {
        Tab::Processes
    } else {
        Tab::Overview
    }
}

impl Tab {
    pub const ALL: [Tab; 4] = [Tab::Overview, Tab::Cpu, Tab::Gpu, Tab::Processes];

    pub fn label(&self) -> (r: &'static str)
        ensures
            r@ == match *self {
                Tab::Overview => "Overview"@,
                Tab::Cpu => "CPU"@,
                Tab::Gpu => "GPU"@,
                Tab::Processes => "Processes"@,
            },
    {
        match self {
            Tab::Overview => "Overview",
            Tab::Cpu => "CPU",
            Tab::Gpu => "GPU",
            Tab::Processes => "Processes",
        }
    }

    pub fn index(&self) -> (r: usize)
        ensures
            r == tab_position(*self),
    {
        match self {
            Tab::Overview => 0,
            Tab::Cpu => 1,
            Tab::Gpu => 2,
            Tab::Processes => 3,
        }
    }

    pub fn from_index(i: usize) -> (r: Self)
        ensures
            r == tab_at(i as int),
    {
        match i {
            0 => Tab::Overview,
            1 => Tab::Cpu,
            2 => Tab::Gpu,
            3 => Tab::Processes,
            _ => Tab::Overview,
        }
    }
}

/// `from_index` undoes `index`, and `index` undoes `from_index` on the four
/// positions that name a tab.
pub proof fn lemma_tab_index_roundtrip(t: Tab, i: int)
    ensures
        tab_at(tab_position(t)) == t,
        0 <= tab_position(t) < 4,
        0 <= i < 4 ==> tab_position(tab_at(i)) == i,
{
}

/// A key as the monitor distinguishes it.
#[derive(Clone, Copy, Debug, PartialEq, Eq, Structural)]
pub enum Key {
    Char(char),
    Esc,
    Enter,
    Backspace,
    Tab,
    BackTab,
    Up,
    Down,
    Other,
}

/// A key press: the key and whether Control was held.
#[derive(Clone, Copy, Debug, PartialEq, Eq, Structural)]
pub struct KeyPress {
    pub code: Key,
    pub ctrl: bool,
}

/// The part of the application state that the keyboard drives.
#[verifier::ext_equal]
pub struct Controls {
    pub tab: Tab,
    pub should_quit: bool,
    pub sort_by: SortBy,
    pub proc_scroll: usize,
    pub filter_mode: bool,
    pub filter_text: Seq<char>,
    pub profile_open: bool,
    pub profile_scroll: usize,
    pub profile_requested: bool,
}

/// Show a view: the profile, if open, is closed.
pub open spec fn show(c: Controls, tab: Tab) -> Controls {
    Controls { tab, profile_open: false, ..c }
}

/// One row further down, stopping at the largest position.
pub open spec fn scroll_down(pos: usize) -> usize {
    if pos == usize::MAX { pos } else { (pos + 1) as usize }
}

/// One row further up, stopping at the first.
pub open spec fn scroll_up(pos: usize) -> usize {
    if pos == 0 { 0 } else { (pos - 1) as usize }
}

/// The controls after one key press. `process_count` is the number of
/// processes in the latest snapshot, if there is one.
pub open spec fn after_key(c: Controls, key: KeyPress, process_count: Option<usize>) -> Controls {
    if c.filter_mode {
        match key.code {
            Key::Esc => Controls { filter_mode: false, filter_text: Seq::empty(), ..c },
            Key::Enter => Controls { filter_mode: false, ..c },
            Key::Backspace => Controls {
                filter_text: if c.filter_text.len() > 0 {
                    c.filter_text.drop_last()
                } else {
                    c.filter_text
                },
                ..c
            },
            Key::Char(ch) => Controls { filter_text: c.filter_text.push(ch), ..c },
            _ => c,
        }
    } else {
        match key.code {
            Key::Char('q') => Controls { should_quit: true, ..c },
            Key::Char('c') if key.ctrl => Controls { should_quit: true, ..c },
            Key::Char('1') => show(c, Tab::Overview),
            Key::Char('2') => show(c, Tab::Cpu),
            Key::Char('3') => show(c, Tab::Gpu),
            Key::Char('4') => show(c, Tab::Processes),
            Key::Tab => show(c, tab_at((tab_position(c.tab) + 1) % 4)),
            Key::BackTab => show(c, tab_at(if tab_position(c.tab) == 0 { 3 } else { tab_position(c.tab) - 1 })),
            Key::Enter => show(c, Tab::Processes),
            Key::Esc => if c.profile_open {
                Controls { profile_open: false, ..c }
            } else if c.filter_text.len() > 0 {
                Controls { filter_text: Seq::empty(), ..c }
            } else {
                show(c, Tab::Overview)
            },
            Key::Char('P') => Controls { profile_open: true, profile_scroll: 0, profile_requested: true, ..c },
            Key::Char('j') | Key::Down => if c.profile_open {
                Controls { profile_scroll: scroll_down(c.profile_scroll), ..c }
            } else {
                Controls { proc_scroll: scroll_down(c.proc_scroll), ..c }
            },
            Key::Char('k') | Key::Up => if c.profile_open {
                Controls { profile_scroll: scroll_up(c.profile_scroll), ..c }
            } else {
                Controls { proc_scroll: scroll_up(c.proc_scroll), ..c }
            },
            Key::Char('g') => Controls { proc_scroll: 0, ..c },
            Key::Char('G') => match process_count {
                Some(n) => Controls { proc_scroll: if n == 0 { 0 } else { (n - 1) as usize }, ..c },
                None => c,
            },
            Key::Char('c') => Controls { sort_by: SortBy::Cpu, ..c },
            Key::Char('m') => Controls { sort_by: SortBy::Memory, ..c },
            Key::Char('p') => Controls { sort_by: SortBy::Pid, ..c },
            Key::Char('n') => Controls { sort_by: SortBy::Name, ..c },
            Key::Char('/') => Controls { filter_mode: true, filter_text: Seq::empty(), ..c },
            _ => c,
        }
    }
}

/// Application state: the current view, the process-table controls, the
/// profile panel and the sample histories of the charts.
pub struct App<T> {
    pub tab: Tab,
    pub should_quit: bool,
    // Sparkline histories
    pub cpu_history: RingBuffer<T>,
    pub per_core_history: Vec<RingBuffer<T>>,
    pub mem_history: RingBuffer<T>,
    // Process table state
    pub sort_by: SortBy,
    pub proc_scroll: usize,
    pub filter_mode: bool,
    pub filter_text: Vec<char>,
    // Profile panel: shown over the current view, its scroll position, and
    // whether an analysis was asked for and not yet started
    pub profile_open: bool,
    pub profile_scroll: usize,
    pub profile_requested: bool,
}

impl<T> App<T> {
    pub open spec fn controls(&self) -> Controls {
        Controls {
            tab: self.tab,
            should_quit: self.should_quit,
            sort_by: self.sort_by,
            proc_scroll: self.proc_scroll,
            filter_mode: self.filter_mode,
            filter_text: self.filter_text@,
            profile_open: self.profile_open,
            profile_scroll: self.profile_scroll,
            profile_requested: self.profile_requested,
        }
    }

    /// Every history is consistent and keeps `HISTORY_LEN` samples.
    pub open spec fn wf(&self) -> bool {
        &&& self.cpu_history.wf()
        &&& self.cpu_history.capacity() == HISTORY_LEN
        &&& self.mem_history.wf()
        &&& self.mem_history.capacity() == HISTORY_LEN
        &&& forall|i: int|
            0 <= i < self.per_core_history@.len() ==> {
                &&& (#[trigger] self.per_core_history@[i]).wf()
                &&& self.per_core_history@[i].capacity() == HISTORY_LEN
            }
    }
}

impl<T: Copy + Default> App<T> {
    pub fn new() -> (r: Self)
        ensures
            r.wf(),
            r.tab == Tab::Overview,
            !r.should_quit,
            r.cpu_history@ == Seq::<T>::empty(),
            r.per_core_history@.len() == 0,
            r.mem_history@ == Seq::<T>::empty(),
            r.sort_by == SortBy::Cpu,
            r.proc_scroll == 0,
            !r.filter_mode,
            r.filter_text@ == Seq::<char>::empty(),
            !r.profile_open,
            r.profile_scroll == 0,
            !r.profile_requested,
    {
        Self {
            tab: Tab::Overview,
            should_quit: false,
            cpu_history: RingBuffer::new(HISTORY_LEN),
            per_core_history: Vec::new(),
            mem_history: RingBuffer::new(HISTORY_LEN),
            sort_by: SortBy::Cpu,
            proc_scroll: 0,
            filter_mode: false,
            filter_text: Vec::new(),
            profile_open: false,
            profile_scroll: 0,
            profile_requested: false,
        }
    }

    /// Record one sample: the aggregate CPU usage, the usage of each core and
    /// the memory usage. Histories for newly seen cores are added.
    pub fn update(&mut self, cpu: T, per_core: &[T], mem: T)
        requires
            old(self).wf(),
        ensures
            final(self).wf(),
            final(self).controls() == old(self).controls(),
            final(self).cpu_history@ == keep_last(old(self).cpu_history@.push(cpu), HISTORY_LEN as nat),
            final(self).mem_history@ == keep_last(old(self).mem_history@.push(mem), HISTORY_LEN as nat),
            final(self).per_core_history@.len() == if per_core@.len() > old(self).per_core_history@.len() {
                per_core@.len()
            } else {
                old(self).per_core_history@.len()
            },
            forall|i: int|
                0 <= i < per_core@.len() ==> (#[trigger] final(self).per_core_history@[i])@ == keep_last(
                    (if i < old(self).per_core_history@.len() {
                        old(self).per_core_history@[i]@
                    } else {
                        Seq::<T>::empty()
                    }).push(per_core@[i]),
                    HISTORY_LEN as nat,
                ),
            forall|i: int|
                per_core@.len() <= i < old(self).per_core_history@.len() ==> (
                #[trigger] final(self).per_core_history@[i])@ == old(self).per_core_history@[i]@,
    {
        // CPU aggregate
        self.cpu_history.push(cpu);

        // Per-core: grow history vec if needed
        let ghost before = self.per_core_history@;
        let ghost cpu_h = self.cpu_history;
        let ghost mem_h = self.mem_history;
        let ghost ctl = self.controls();
        while self.per_core_history.len() < per_core.len()
            invariant
                self.cpu_history == cpu_h,
                self.mem_history == mem_h,
                self.controls() == ctl,
                self.per_core_history@.len() >= before.len(),
                forall|i: int|
                    0 <= i < before.len() ==> #[trigger] self.per_core_history@[i] == before[i],
                forall|i: int|
                    before.len() <= i < self.per_core_history@.len() ==> (
                    #[trigger] self.per_core_history@[i])@ == Seq::<T>::empty(),
                forall|i: int|
                    0 <= i < self.per_core_history@.len() ==> {
                        &&& (#[trigger] self.per_core_history@[i]).wf()
                        &&& self.per_core_history@[i].capacity() == HISTORY_LEN
                    },
                before.len() >= per_core@.len() ==> self.per_core_history@ == before,
                before.len() < per_core@.len() ==> self.per_core_history@.len() <= per_core@.len(),
            decreases per_core@.len() - self.per_core_history@.len(),
        {
            self.per_core_history.push(RingBuffer::new(HISTORY_LEN));
        }
        let ghost grown = self.per_core_history@;
        let mut i: usize = 0;
        while i < per_core.len()
            invariant
                self.cpu_history == cpu_h,
                self.mem_history == mem_h,
                self.controls() == ctl,
                i <= per_core@.len(),
                self.per_core_history@.len() == grown.len(),
                grown.len() >= per_core@.len(),
                forall|k: int|
                    0 <= k < self.per_core_history@.len() ==> {
                        &&& (#[trigger] self.per_core_history@[k]).wf()
                        &&& self.per_core_history@[k].capacity() == HISTORY_LEN
                    },
                forall|k: int|
                    0 <= k < i ==> (#[trigger] self.per_core_history@[k])@ == keep_last(
                        grown[k]@.push(per_core@[k]),
                        HISTORY_LEN as nat,
                    ),
                forall|k: int|
                    i <= k < grown.len() ==> #[trigger] self.per_core_history@[k] == grown[k],
            decreases per_core@.len() - i,
        {
            self.per_core_history[i].push(per_core[i]);
            i = i + 1;
        }

        // Memory
        self.mem_history.push(mem);
    }

    /// Show a view, closing the profile.
    fn show(&mut self, tab: Tab)
        ensures
            final(self).controls() == show(old(self).controls(), tab),
            final(self).cpu_history == old(self).cpu_history,
            final(self).per_core_history == old(self).per_core_history,
            final(self).mem_history == old(self).mem_history,
    {
        self.tab = tab;
        self.profile_open = false;
    }

    /// Take the pending request for a profile analysis: says whether one was
    /// asked for, and marks it as taken.
    pub fn take_profile_request(&mut self) -> (r: bool)
        ensures
            r == old(self).profile_requested,
            final(self).controls() == (Controls { profile_requested: false, ..old(self).controls() }),
            final(self).cpu_history == old(self).cpu_history,
            final(self).per_core_history == old(self).per_core_history,
            final(self).mem_history == old(self).mem_history,
    {
        let r = self.profile_requested;
        self.profile_requested = false;
        r
    }

    /// Keep the profile scroll within a text of `line_count` lines shown in an
    /// area `area_height` rows high.
    pub fn clamp_profile_scroll(&mut self, line_count: usize, area_height: u16)
        ensures
            final(self).controls() == (Controls {
                profile_scroll: clamped_scroll(old(self).profile_scroll, line_count, area_height) as usize,
                ..old(self).controls()
            }),
            final(self).cpu_history == old(self).cpu_history,
            final(self).per_core_history == old(self).per_core_history,
            final(self).mem_history == old(self).mem_history,
    {
        self.profile_scroll = clamp_scroll(self.profile_scroll, line_count, area_height);
    }

    /// Apply one key press. `process_count` is the number of processes in the
    /// latest snapshot, or `None` before the first one arrived.
    pub fn on_key(&mut self, key: KeyPress, process_count: Option<usize>)
        ensures
            final(self).controls() == after_key(old(self).controls(), key, process_count),
            final(self).cpu_history == old(self).cpu_history,
            final(self).per_core_history == old(self).per_core_history,
            final(self).mem_history == old(self).mem_history,
    {
        if self.filter_mode {
            match key.code {
                Key::Esc => {
                    self.filter_mode = false;
                    self.filter_text.clear();
                },
                Key::Enter => {
                    self.filter_mode = false;
                },
                Key::Backspace => {
                    self.filter_text.pop();
                },
                Key::Char(c) => {
                    self.filter_text.push(c);
                },
                _ => {},
            }
            assert(self.controls() == after_key(old(self).controls(), key, process_count));
            return ;
        }
        match key.code {
            Key::Char('q') => self.should_quit = true,
            Key::Char('c') if key.ctrl => {
                self.should_quit = true;
            },
            // Tab switching
            Key::Char('1') => self.show(Tab::Overview),
            Key::Char('2') => self.show(Tab::Cpu),
            Key::Char('3') => self.show(Tab::Gpu),
            Key::Char('4') => self.show(Tab::Processes),
            Key::Tab => {
                let next = (self.tab.index() + 1) % Tab::ALL.len();
                self.show(Tab::from_index(next));
            },
            Key::BackTab => {
                let prev = if self.tab.index() == 0 {
                    Tab::ALL.len() - 1
                } else {
                    self.tab.index() - 1
                };
                self.show(Tab::from_index(prev));
            },
            // Drill into the process table
            Key::Enter => self.show(Tab::Processes),
            // Back: close the profile, else clear the filter, else the overview
            Key::Esc => {
                if self.profile_open {
                    self.profile_open = false;
                } else if self.filter_text.len() > 0 {
                    self.filter_text.clear();
                } else {
                    self.show(Tab::Overview);
                }
            },
            // Profile
            Key::Char('P') => {
                self.profile_open = true;
                self.profile_scroll = 0;
                self.profile_requested = true;
            },
            // Vim scroll
            Key::Char('j') | Key::Down => {
                if self.profile_open {
                    self.profile_scroll = self.profile_scroll.saturating_add(1);
                } else {
                    self.proc_scroll = self.proc_scroll.saturating_add(1);
                }
            },
            Key::Char('k') | Key::Up => {
                if self.profile_open {
                    self.profile_scroll = self.profile_scroll.saturating_sub(1);
                } else {
                    self.proc_scroll = self.proc_scroll.saturating_sub(1);
                }
            },
            Key::Char('g') => self.proc_scroll = 0,
            Key::Char('G') => {
                if let Some(n) = process_count {
                    self.proc_scroll = n.saturating_sub(1);
                }
            },
            // Sort keys
            Key::Char('c') => self.sort_by = SortBy::Cpu,
            Key::Char('m') => self.sort_by = SortBy::Memory,
            Key::Char('p') => self.sort_by = SortBy::Pid,
            Key::Char('n') => self.sort_by = SortBy::Name,
            // Filter
            Key::Char('/') => {
                self.filter_mode = true;
                self.filter_text.clear();
            },
            _ => {},
        }
        assert(self.controls() == after_key(old(self).controls(), key, process_count));
    }
}

/// Tab and BackTab undo each other outside filter mode, with no profile open.
pub proof fn lemma_tab_backtab_inverse(c: Controls, count: Option<usize>)
    requires
        !c.filter_mode,
        !c.profile_open,
    ensures
        after_key(after_key(c, KeyPress { code: Key::Tab, ctrl: false }, count), KeyPress { code: Key::BackTab, ctrl: false }, count) == c,
        after_key(after_key(c, KeyPress { code: Key::BackTab, ctrl: false }, count), KeyPress { code: Key::Tab, ctrl: false }, count) == c,
{
    assert(after_key(after_key(c, KeyPress { code: Key::Tab, ctrl: false }, count), KeyPress { code: Key::BackTab, ctrl: false }, count) =~= c);
    assert(after_key(after_key(c, KeyPress { code: Key::BackTab, ctrl: false }, count), KeyPress { code: Key::Tab, ctrl: false }, count) =~= c);
}

/// Pressing Tab four times visits every view and comes back to the first.
pub proof fn lemma_tab_cycle(c: Controls, count: Option<usize>)
    requires
        !c.filter_mode,
        !c.profile_open,
    ensures
        ({
            let k = KeyPress { code: Key::Tab, ctrl: false };
            let c1 = after_key(c, k, count);
            let c2 = after_key(c1, k, count);
            let c3 = after_key(c2, k, count);
            &&& after_key(c3, k, count) == c
            &&& c1.tab != c.tab && c2.tab != c.tab && c3.tab != c.tab
            &&& c1.tab != c2.tab && c1.tab != c3.tab && c2.tab != c3.tab
        }),
{
    let k = KeyPress { code: Key::Tab, ctrl: false };
    let c1 = after_key(c, k, count);
    let c2 = after_key(c1, k, count);
    let c3 = after_key(c2, k, count);
    assert(after_key(c3, k, count) =~= c);
}

/// While the filter is being edited, keys only edit the filter: the view, the
/// sort column, the scroll positions, the profile panel and the quit flag stay
/// as they are.
pub proof fn lemma_filter_mode_only_edits_filter(c: Controls, key: KeyPress, count: Option<usize>)
    requires
        c.filter_mode,
    ensures
        after_key(c, key, count).tab == c.tab,
        after_key(c, key, count).should_quit == c.should_quit,
        after_key(c, key, count).sort_by == c.sort_by,
        after_key(c, key, count).proc_scroll == c.proc_scroll,
        after_key(c, key, count).profile_open == c.profile_open,
        after_key(c, key, count).profile_scroll == c.profile_scroll,
        after_key(c, key, count).profile_requested == c.profile_requested,
{
}

/// A typed character followed by Backspace leaves the filter as it was.
pub proof fn lemma_type_then_backspace(c: Controls, ch: char, count: Option<usize>)
    requires
        c.filter_mode,
    ensures
        after_key(after_key(c, KeyPress { code: Key::Char(ch), ctrl: false }, count), KeyPress { code: Key::Backspace, ctrl: false }, count) == c,
{
    assert(c.filter_text.push(ch).drop_last() =~= c.filter_text);
    assert(after_key(after_key(c, KeyPress { code: Key::Char(ch), ctrl: false }, count), KeyPress { code: Key::Backspace, ctrl: false }, count) =~= c);
}

/// Opening the filter with `/` and leaving it with Esc ends with no filter and
/// changes nothing else.
pub proof fn lemma_open_then_cancel_filter(c: Controls, count: Option<usize>)
    requires
        !c.filter_mode,
    ensures
        after_key(after_key(c, KeyPress { code: Key::Char('/'), ctrl: false }, count), KeyPress { code: Key::Esc, ctrl: false }, count) == (Controls { filter_text: Seq::empty(), ..c }),
{
    assert(after_key(after_key(c, KeyPress { code: Key::Char('/'), ctrl: false }, count), KeyPress { code: Key::Esc, ctrl: false }, count) =~= (Controls { filter_text: Seq::empty(), ..c }));
}

/// Scrolling down one row and back up returns to the same row, in the process
/// table and in the profile, unless the position is already at its largest
/// value.
pub proof fn lemma_scroll_down_up(c: Controls, count: Option<usize>)
    requires
        !c.filter_mode,
        c.proc_scroll < usize::MAX,
        c.profile_scroll < usize::MAX,
    ensures
        after_key(after_key(c, KeyPress { code: Key::Down, ctrl: false }, count), KeyPress { code: Key::Up, ctrl: false }, count) == c,
{
    assert(after_key(after_key(c, KeyPress { code: Key::Down, ctrl: false }, count), KeyPress { code: Key::Up, ctrl: false }, count) =~= c);
}

/// `G` jumps to the last process row and `g` back to the first.
pub proof fn lemma_jump_bottom_top(c: Controls, n: usize)
    requires
        !c.filter_mode,
        n > 0,
    ensures
        after_key(c, KeyPress { code: Key::Char('G'), ctrl: false }, Some(n)).proc_scroll == n - 1,
        after_key(c, KeyPress { code: Key::Char('g'), ctrl: false }, Some(n)).proc_scroll == 0,
{
}

/// Outside filter mode, Enter drills into the process table from any view,
/// closing the profile.
pub proof fn lemma_enter_shows_processes(c: Controls, count: Option<usize>)
    requires
        !c.filter_mode,
    ensures
        after_key(c, KeyPress { code: Key::Enter, ctrl: false }, count) == show(c, Tab::Processes),
        after_key(c, KeyPress { code: Key::Enter, ctrl: false }, count).tab == Tab::Processes,
        !after_key(c, KeyPress { code: Key::Enter, ctrl: false }, count).profile_open,
{
}

/// Esc clears an applied filter, outside filter mode and with no profile open,
/// and changes nothing else.
pub proof fn lemma_esc_clears_applied_filter(c: Controls, count: Option<usize>)
    requires
        !c.filter_mode,
        !c.profile_open,
        c.filter_text.len() > 0,
    ensures
        after_key(c, KeyPress { code: Key::Esc, ctrl: false }, count) == (Controls { filter_text: Seq::empty(), ..c }),
{
}

/// With no filter and no profile, Esc goes back to the overview.
pub proof fn lemma_esc_goes_back(c: Controls, count: Option<usize>)
    requires
        !c.filter_mode,
        !c.profile_open,
        c.filter_text.len() == 0,
    ensures
        after_key(c, KeyPress { code: Key::Esc, ctrl: false }, count) == (Controls { tab: Tab::Overview, ..c }),
{
    assert(after_key(c, KeyPress { code: Key::Esc, ctrl: false }, count) =~= (Controls { tab: Tab::Overview, ..c }));
}

/// `P` opens the profile at its top and asks for an analysis; Esc closes it
/// again, leaving the view, the filter and the process table as they were.
pub proof fn lemma_profile_open_then_close(c: Controls, count: Option<usize>)
    requires
        !c.filter_mode,
        !c.profile_open,
    ensures
        ({
            let opened = after_key(c, KeyPress { code: Key::Char('P'), ctrl: false }, count);
            &&& opened.profile_open
            &&& opened.profile_requested
            &&& opened.profile_scroll == 0
            &&& after_key(opened, KeyPress { code: Key::Esc, ctrl: false }, count)
                == (Controls { profile_scroll: 0, profile_requested: true, ..c })
        }),
{
    let opened = after_key(c, KeyPress { code: Key::Char('P'), ctrl: false }, count);
    assert(after_key(opened, KeyPress { code: Key::Esc, ctrl: false }, count)
        =~= (Controls { profile_scroll: 0, profile_requested: true, ..c }));
}

/// While the filter is typed, a key that is not Esc, Enter, Backspace or a
/// character changes nothing, and characters and Backspace keep the filter
/// being typed.
pub proof fn lemma_filter_mode_ignores_other_keys(c: Controls, key: KeyPress, count: Option<usize>)
    requires
        c.filter_mode,
    ensures
        !(key.code is Esc || key.code is Enter || key.code is Backspace || key.code is Char) ==> after_key(c, key, count) == c,
        (key.code is Backspace || key.code is Char) ==> after_key(c, key, count).filter_mode,
        key.code is Enter ==> after_key(c, key, count) == (Controls { filter_mode: false, ..c }),
{
    assert(key.code is Enter ==> after_key(c, key, count) =~= (Controls { filter_mode: false, ..c }));
}

} // verus!
