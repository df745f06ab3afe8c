use watt::collect::process::SortBy;
use watt::ui::app::{App, Key, KeyPress, Tab, HISTORY_LEN};

fn key(code: Key) -> KeyPress {
    KeyPress { code, ctrl: false }
}

fn ch(c: char) -> KeyPress {
    key(Key::Char(c))
}

#[test]
fn tab_labels_and_indices() {
    assert_eq!(Tab::Overview.label(), "Overview");
    assert_eq!(Tab::Cpu.label(), "CPU");
    assert_eq!(Tab::Gpu.label(), "GPU");
    assert_eq!(Tab::Processes.label(), "Processes");
    for (i, t) in Tab::ALL.iter().enumerate() {
        assert_eq!(t.index(), i);
        assert_eq!(Tab::from_index(i), *t);
    }
    assert_eq!(Tab::from_index(4), Tab::Overview);
    assert_eq!(Tab::from_index(usize::MAX), Tab::Overview);
}

#[test]
fn sort_labels() {
    assert_eq!(SortBy::Cpu.label(), "CPU%");
    assert_eq!(SortBy::Memory.label(), "MEM");
    assert_eq!(SortBy::Pid.label(), "PID");
    assert_eq!(SortBy::Name.label(), "NAME");
}

#[test]
fn new_app_starts_on_overview_sorted_by_cpu() {
    let app: App<f32> = App::new();
    assert_eq!(app.tab, Tab::Overview);
    assert!(!app.should_quit);
    assert_eq!(app.sort_by, SortBy::Cpu);
    assert_eq!(app.proc_scroll, 0);
    assert!(!app.filter_mode);
    assert!(app.filter_text.is_empty());
    assert!(app.cpu_history.as_vec().is_empty());
    assert!(app.per_core_history.is_empty());
}

#[test]
fn tab_cycles_forward_and_back() {
    let mut app: App<f32> = App::new();
    let order = [Tab::Cpu, Tab::Gpu, Tab::Processes, Tab::Overview];
    for t in order {
        app.on_key(key(Key::Tab), None);
        assert_eq!(app.tab, t);
    }
    app.on_key(key(Key::BackTab), None);
    assert_eq!(app.tab, Tab::Processes);
    app.on_key(key(Key::Tab), None);
    assert_eq!(app.tab, Tab::Overview);
}

#[test]
fn number_keys_select_tabs() {
    let mut app: App<f32> = App::new();
    app.on_key(ch('3'), None);
    assert_eq!(app.tab, Tab::Gpu);
    app.on_key(ch('4'), None);
    assert_eq!(app.tab, Tab::Processes);
    app.on_key(ch('2'), None);
    assert_eq!(app.tab, Tab::Cpu);
    app.on_key(ch('1'), None);
    assert_eq!(app.tab, Tab::Overview);
}

#[test]
fn quit_keys() {
    let mut app: App<f32> = App::new();
    app.on_key(ch('c'), None);
    assert!(!app.should_quit);
    assert_eq!(app.sort_by, SortBy::Cpu);
    app.on_key(KeyPress { code: Key::Char('c'), ctrl: true }, None);
    assert!(app.should_quit);
    let mut app2: App<f32> = App::new();
    app2.on_key(ch('q'), None);
    assert!(app2.should_quit);
}

#[test]
fn scrolling_saturates() {
    let mut app: App<f32> = App::new();
    app.on_key(key(Key::Up), None);
    assert_eq!(app.proc_scroll, 0);
    app.on_key(ch('j'), None);
    app.on_key(key(Key::Down), None);
    assert_eq!(app.proc_scroll, 2);
    app.on_key(ch('k'), None);
    assert_eq!(app.proc_scroll, 1);
    app.on_key(ch('G'), Some(40));
    assert_eq!(app.proc_scroll, 39);
    app.on_key(ch('g'), Some(40));
    assert_eq!(app.proc_scroll, 0);
    app.on_key(ch('G'), Some(0));
    assert_eq!(app.proc_scroll, 0);
    app.proc_scroll = 5;
    app.on_key(ch('G'), None);
    assert_eq!(app.proc_scroll, 5);
    app.proc_scroll = usize::MAX;
    app.on_key(ch('j'), None);
    assert_eq!(app.proc_scroll, usize::MAX);
}

#[test]
fn sort_keys() {
    let mut app: App<f32> = App::new();
    app.on_key(ch('m'), None);
    assert_eq!(app.sort_by, SortBy::Memory);
    app.on_key(ch('p'), None);
    assert_eq!(app.sort_by, SortBy::Pid);
    app.on_key(ch('n'), None);
    assert_eq!(app.sort_by, SortBy::Name);
    app.on_key(ch('c'), None);
    assert_eq!(app.sort_by, SortBy::Cpu);
}

#[test]
fn filter_editing() {
    let mut app: App<f32> = App::new();
    app.on_key(ch('/'), None);
    assert!(app.filter_mode);
    for c in "chrq".chars() {
        app.on_key(ch(c), None);
    }
    // 'q' is typed into the filter, not quitting
    assert!(!app.should_quit);
    app.on_key(key(Key::Backspace), None);
    assert_eq!(app.filter_text.iter().collect::<String>(), "chr");
    app.on_key(key(Key::Tab), None);
    assert_eq!(app.tab, Tab::Overview);
    app.on_key(key(Key::Enter), None);
    assert!(!app.filter_mode);
    assert_eq!(app.filter_text.iter().collect::<String>(), "chr");
    app.on_key(ch('/'), None);
    assert!(app.filter_text.is_empty());
    app.on_key(ch('x'), None);
    app.on_key(key(Key::Esc), None);
    assert!(!app.filter_mode);
    assert!(app.filter_text.is_empty());
    // Backspace on an empty filter does nothing
    app.on_key(ch('/'), None);
    app.on_key(key(Key::Backspace), None);
    assert!(app.filter_text.is_empty());
    assert!(app.filter_mode);
}

#[test]
fn update_records_samples_and_grows_core_histories() {
    let mut app: App<u32> = App::new();
    app.update(10, &[1, 2], 50);
    app.update(20, &[3, 4, 5], 60);
    assert_eq!(app.cpu_history.as_vec(), vec![10, 20]);
    assert_eq!(app.mem_history.as_vec(), vec![50, 60]);
    assert_eq!(app.per_core_history.len(), 3);
    assert_eq!(app.per_core_history[0].as_vec(), vec![1, 3]);
    assert_eq!(app.per_core_history[1].as_vec(), vec![2, 4]);
    assert_eq!(app.per_core_history[2].as_vec(), vec![5]);
    app.update(30, &[6], 70);
    assert_eq!(app.per_core_history.len(), 3);
    assert_eq!(app.per_core_history[0].as_vec(), vec![1, 3, 6]);
    assert_eq!(app.per_core_history[2].as_vec(), vec![5]);
}

#[test]
fn histories_keep_the_last_history_len_samples() {
    let mut app: App<u32> = App::new();
    for v in 0..(HISTORY_LEN as u32 + 30) {
        app.update(v, &[v], v);
    }
    let h = app.cpu_history.as_vec();
    assert_eq!(h.len(), HISTORY_LEN);
    assert_eq!(h[0], 30);
    assert_eq!(*h.last().unwrap(), HISTORY_LEN as u32 + 29);
}

#[test]
fn esc_clears_an_applied_filter() {
    let mut app: App<f32> = App::new();
    for c in ['/', 'a', 'b', 'c'] {
        app.on_key(ch(c), None);
    }
    app.on_key(key(Key::Enter), None);
    assert!(!app.filter_mode);
    assert_eq!(app.filter_text.iter().collect::<String>(), "abc");
    app.tab = Tab::Cpu;
    app.on_key(key(Key::Esc), None);
    assert!(!app.filter_mode);
    assert!(app.filter_text.is_empty());
    assert_eq!(app.tab, Tab::Cpu);
    // with no filter left, Esc goes back to the overview
    app.on_key(key(Key::Esc), None);
    assert_eq!(app.tab, Tab::Overview);
}

#[test]
fn enter_drills_into_the_process_table() {
    let mut app: App<f32> = App::new();
    assert_eq!(app.tab, Tab::Overview);
    app.on_key(key(Key::Enter), None);
    assert_eq!(app.tab, Tab::Processes);
    app.on_key(ch('3'), None);
    app.on_key(key(Key::Enter), None);
    assert_eq!(app.tab, Tab::Processes);
}

#[test]
fn profile_panel_opens_scrolls_and_closes() {
    let mut app: App<f32> = App::new();
    assert!(!app.take_profile_request());
    app.on_key(ch('2'), None);
    app.on_key(ch('P'), None);
    assert!(app.profile_open);
    assert_eq!(app.profile_scroll, 0);
    assert!(app.take_profile_request());
    assert!(!app.take_profile_request());
    // j/k scroll the profile, not the process table
    app.on_key(ch('j'), None);
    app.on_key(ch('j'), None);
    app.on_key(key(Key::Down), None);
    app.on_key(ch('k'), None);
    assert_eq!(app.profile_scroll, 2);
    assert_eq!(app.proc_scroll, 0);
    app.clamp_profile_scroll(10, 10);
    assert_eq!(app.profile_scroll, 2);
    app.clamp_profile_scroll(5, 10);
    assert_eq!(app.profile_scroll, 0);
    // Esc closes the profile and keeps the view
    app.on_key(key(Key::Esc), None);
    assert!(!app.profile_open);
    assert_eq!(app.tab, Tab::Cpu);
    // a view key also closes it
    app.on_key(ch('P'), None);
    app.on_key(ch('4'), None);
    assert!(!app.profile_open);
    assert_eq!(app.tab, Tab::Processes);
    // in filter mode, P is typed
    app.on_key(ch('/'), None);
    app.on_key(ch('P'), None);
    assert!(!app.profile_open);
    assert_eq!(app.filter_text.iter().collect::<String>(), "P");
}
