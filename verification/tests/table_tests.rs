use dnstest::stats::BenchmarkResult;
use dnstest::stats::Mean;
use dnstest::table::compute_widths;
use dnstest::table::format_mean;
use dnstest::table::render_results_line;
use dnstest::table::render_table;
use dnstest::table::sort_results;
use dnstest::table::strip_port_number;
use dnstest::table::ColumnWidths;
use dnstest::DNS;
use dnstest::SortType;

fn result(name: &str, ips: &[&str], min: u64, max: u64, avg: Mean) -> BenchmarkResult {
    BenchmarkResult {
        dns: DNS { name: name.to_string(), ips: ips.iter().map(|s| s.to_string()).collect() },
        min,
        max,
        avg,
    }
}

fn mean_of(whole: u64) -> Mean {
    Mean { whole, num: 0, den: 1 }
}

#[test]
fn strip_port_number_removes_the_suffix() {
    assert_eq!(strip_port_number("8.8.8.8:53"), "8.8.8.8");
    assert_eq!(strip_port_number("1.1.1.1:53"), "1.1.1.1");
    assert_eq!(strip_port_number(":53"), "");
}

#[test]
fn format_mean_rounds_half_up_to_two_decimals() {
    assert_eq!(format_mean(&Mean { whole: 1, num: 1, den: 2 }), "1.50");
    assert_eq!(format_mean(&Mean { whole: 0, num: 1, den: 3 }), "0.33");
    assert_eq!(format_mean(&Mean { whole: 0, num: 2, den: 3 }), "0.67");
    assert_eq!(format_mean(&Mean { whole: 0, num: 1, den: 200 }), "0.01");
    assert_eq!(format_mean(&Mean { whole: 7, num: 0, den: 1 }), "7.00");
    assert_eq!(format_mean(&Mean { whole: 2, num: 999, den: 1000 }), "3.00");
    assert_eq!(format_mean(&Mean { whole: 200, num: 0, den: 3 }), "200.00");
}

#[test]
fn default_widths_come_from_the_headers() {
    let w = compute_widths(&Vec::new());
    assert_eq!(w, ColumnWidths { name: 10, ip: 8, avg: 10, min: 5, max: 3 });
}

#[test]
fn long_server_name_widens_the_name_column() {
    // A 12-character name, longer than "Provider", must widen the name
    // column to at least its length plus one.
    let name = "TwelveChars!";
    assert_eq!(name.len(), 12);
    let rows = vec![result(name, &["10.0.0.1:53"], 1, 2, mean_of(1))];
    let w = compute_widths(&rows);
    assert!(w.name >= name.len() + 1);
    assert_eq!(w.name, 13);
}

#[test]
fn widths_cover_every_cell() {
    let rows = vec![
        result("A", &["10.0.0.1:53", "10.220.30.240:53"], 5, 123_456_789, mean_of(77)),
        result("LongProvider", &["1.1.1.1:53"], 1, 2, Mean { whole: 1234, num: 1, den: 2 }),
    ];
    let w = compute_widths(&rows);
    assert_eq!(w.name, "LongProvider".len() + 1);
    assert_eq!(w.ip, "10.220.30.240:53".len() + 1);
    assert_eq!(w.avg, 10); // "1234.50" + 1 = 8 stays under the header's 10
    assert_eq!(w.min, 5);
    assert_eq!(w.max, "123456789".len());
}

fn field_sorted(rows: &[BenchmarkResult], sort: SortType) -> bool {
    rows.windows(2).all(|p| match sort {
        SortType::Average => {
            dnstest::stats::mean_le(&p[0].avg, &p[1].avg)
        },
        SortType::Minimum => p[0].min <= p[1].min,
        SortType::Maximum => p[0].max <= p[1].max,
    })
}

#[test]
fn rows_are_nondecreasing_in_the_sorted_field() {
    let rows = vec![
        result("A", &["1.1.1.1:53"], 30, 100, Mean { whole: 50, num: 0, den: 1 }),
        result("B", &["2.2.2.2:53"], 10, 300, Mean { whole: 40, num: 1, den: 2 }),
        result("C", &["3.3.3.3:53"], 20, 200, Mean { whole: 60, num: 0, den: 1 }),
    ];
    for sort in [SortType::Average, SortType::Minimum, SortType::Maximum] {
        let sorted = sort_results(rows.clone(), sort);
        assert_eq!(sorted.len(), rows.len());
        assert!(field_sorted(&sorted, sort), "not sorted for {sort:?}");
    }
}

#[test]
fn sorting_by_each_field_picks_its_own_order() {
    let rows = vec![
        result("A", &["1.1.1.1:53"], 30, 100, mean_of(50)),
        result("B", &["2.2.2.2:53"], 10, 300, mean_of(41)),
        result("C", &["3.3.3.3:53"], 20, 200, mean_of(60)),
    ];
    let by_avg = sort_results(rows.clone(), SortType::Average);
    let names: Vec<&str> = by_avg.iter().map(|r| r.dns.name.as_str()).collect();
    assert_eq!(names, ["B", "A", "C"]);
    let by_min = sort_results(rows.clone(), SortType::Minimum);
    let names: Vec<&str> = by_min.iter().map(|r| r.dns.name.as_str()).collect();
    assert_eq!(names, ["B", "C", "A"]);
    let by_max = sort_results(rows, SortType::Maximum);
    let names: Vec<&str> = by_max.iter().map(|r| r.dns.name.as_str()).collect();
    assert_eq!(names, ["A", "C", "B"]);
}

#[test]
fn equal_sort_fields_keep_input_order() {
    let rows = vec![
        result("first", &["1.1.1.1:53"], 10, 10, mean_of(10)),
        result("second", &["2.2.2.2:53"], 10, 10, mean_of(10)),
        result("third", &["3.3.3.3:53"], 10, 10, mean_of(10)),
    ];
    for sort in [SortType::Average, SortType::Minimum, SortType::Maximum] {
        let sorted = sort_results(rows.clone(), sort);
        let names: Vec<&str> = sorted.iter().map(|r| r.dns.name.as_str()).collect();
        assert_eq!(names, ["first", "second", "third"], "ties reordered for {sort:?}");
    }
}

#[test]
fn a_row_pads_its_cells_and_indents_extra_endpoints() {
    let w = ColumnWidths { name: 10, ip: 12, avg: 10, min: 5, max: 3 };
    let r = result("A", &["10.0.0.1:53", "10.0.0.2:53"], 1, 2, Mean { whole: 1, num: 1, den: 2 });
    let line = render_results_line(&r, &w);
    assert_eq!(line, "A         10.0.0.1    1.50      1    2\n          10.0.0.2\n");
}

#[test]
fn the_table_renders_sorted_under_header_and_separator() {
    let rows = vec![
        result("B", &["2.2.2.2:53"], 3, 4, Mean { whole: 3, num: 1, den: 2 }),
        result("A", &["10.0.0.1:53"], 1, 2, Mean { whole: 1, num: 1, den: 2 }),
    ];
    let table = render_table(rows, SortType::Average);
    let expected = "Provider  IP          Avg (\u{b5}s)  Min  Max\n----------------------------------------\nA         10.0.0.1    1.50      1    2\nB         2.2.2.2     3.50      3    4\n";
    assert_eq!(table, expected);
}
