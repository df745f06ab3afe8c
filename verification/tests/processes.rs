use watt::collect::process::{aggregate, order_processes, ProcessRow, SortBy};
use watt::ui::process_view::{filter_rows, selected_row, table_title};

fn row(pid: u32, name: &str, cpu: u32, mem: u64) -> ProcessRow {
    ProcessRow { pid, name: name.to_string(), cpu_rank: cpu, memory_bytes: mem, gpu_mem_bytes: 0 }
}

fn sample() -> Vec<ProcessRow> {
    vec![
        row(30, "bash", 5, 100),
        row(10, "Chrome Helper", 50, 900),
        row(20, "chrome", 50, 300),
        row(40, "Zsh", 0, 300),
        row(5, "chrome helper", 1, 50),
    ]
}

#[test]
fn order_by_cpu_descending_and_stable() {
    let rows = sample();
    assert_eq!(order_processes(&rows, SortBy::Cpu, None), vec![1, 2, 0, 4, 3]);
}

#[test]
fn order_by_memory_descending_and_stable() {
    let rows = sample();
    assert_eq!(order_processes(&rows, SortBy::Memory, None), vec![1, 2, 3, 0, 4]);
}

#[test]
fn order_by_pid_ascending() {
    let rows = sample();
    assert_eq!(order_processes(&rows, SortBy::Pid, None), vec![4, 1, 2, 0, 3]);
}

#[test]
fn order_by_name_ignores_case() {
    let rows = sample();
    // bash, chrome, Chrome Helper / chrome helper (tie, input order), Zsh
    assert_eq!(order_processes(&rows, SortBy::Name, None), vec![0, 2, 1, 4, 3]);
}

#[test]
fn filter_is_case_insensitive_substring() {
    let rows = sample();
    assert_eq!(order_processes(&rows, SortBy::Pid, Some("HELP")), vec![4, 1]);
    assert_eq!(order_processes(&rows, SortBy::Cpu, Some("chrome")), vec![1, 2, 4]);
    assert_eq!(order_processes(&rows, SortBy::Cpu, Some("nothing")), Vec::<usize>::new());
    assert_eq!(order_processes(&rows, SortBy::Cpu, Some("")), vec![1, 2, 0, 4, 3]);
}

#[test]
fn order_of_no_rows() {
    assert!(order_processes(&[], SortBy::Name, Some("x")).is_empty());
}

#[test]
fn table_filter_keeps_list_order() {
    let names: Vec<String> = sample().into_iter().map(|r| r.name).collect();
    assert_eq!(filter_rows(&names, ""), vec![0, 1, 2, 3, 4]);
    assert_eq!(filter_rows(&names, "CHROME"), vec![1, 2, 4]);
    assert_eq!(filter_rows(&names, "zs"), vec![3]);
    assert_eq!(filter_rows(&names, "q"), Vec::<usize>::new());
}

#[test]
fn selected_row_is_clamped() {
    assert_eq!(selected_row(0, 0), None);
    assert_eq!(selected_row(7, 0), None);
    assert_eq!(selected_row(0, 3), Some(0));
    assert_eq!(selected_row(2, 3), Some(2));
    assert_eq!(selected_row(9, 3), Some(2));
}

#[test]
fn aggregate_groups_by_exact_name() {
    let mut rows = sample();
    rows.push(row(50, "chrome", 3, 200));
    rows[2].gpu_mem_bytes = 1000;
    rows[5].gpu_mem_bytes = 24;
    let groups = aggregate(&rows);
    let names: Vec<&str> = groups.iter().map(|g| g.name.as_str()).collect();
    assert_eq!(names, vec!["bash", "Chrome Helper", "chrome", "Zsh", "chrome helper"]);
    let chrome = &groups[2];
    assert_eq!(chrome.count, 2);
    assert_eq!(chrome.members, vec![2, 5]);
    assert_eq!(chrome.total_memory, 500);
    assert_eq!(chrome.total_gpu_mem, 1024);
    assert_eq!(groups[0].count, 1);
    assert_eq!(groups[0].total_memory, 100);
}

#[test]
fn aggregate_of_many_helpers() {
    let rows: Vec<ProcessRow> = (0..47).map(|i| row(i, "Chrome Helper", 1, 10)).collect();
    let groups = aggregate(&rows);
    assert_eq!(groups.len(), 1);
    assert_eq!(groups[0].count, 47);
    assert_eq!(groups[0].total_memory, 470);
}

#[test]
fn table_titles() {
    assert_eq!(table_title(SortBy::Memory, false, ""), " Processes [sort: MEM] ");
    assert_eq!(table_title(SortBy::Cpu, false, ""), " Processes [sort: CPU%] ");
    assert_eq!(table_title(SortBy::Cpu, true, "chr"), " Processes — filter: /chr_ ");
    assert_eq!(table_title(SortBy::Cpu, true, ""), " Processes — filter: /_ ");
    assert_eq!(table_title(SortBy::Name, false, "chr"), " Processes — filter: chr (Esc clear) ");
}

#[test]
fn empty_filter_keeps_every_row() {
    let rows = sample();
    for by in [SortBy::Cpu, SortBy::Memory, SortBy::Pid, SortBy::Name] {
        assert_eq!(order_processes(&rows, by, Some("")), order_processes(&rows, by, None));
    }
}
