use guest_profiler::table::{format_line, format_lines, SampleTable};

fn text(s: &str) -> String {
    s.to_string()
}

#[test]
fn the_same_signature_k_times_counts_k() {
    for k in 0..50u64 {
        let mut table = SampleTable::new();
        for _ in 0..k {
            table.record(text("main;run"));
        }
        assert_eq!(table.count(&text("main;run")), k);
        assert_eq!(table.total(), k);
        assert_eq!(table.entries(), if k == 0 { 0 } else { 1 });
    }
}

#[test]
fn distinct_signatures_have_an_entry_each() {
    let mut table = SampleTable::new();
    for i in 0..40 {
        table.record(format!("main;f{}", i));
    }
    assert_eq!(table.entries(), 40);
    assert_eq!(table.total(), 40);
    for i in 0..40 {
        assert_eq!(table.count(&format!("main;f{}", i)), 1);
    }
    let rows = table.drain();
    assert_eq!(rows.len(), 40);
    assert_eq!(rows.iter().map(|row| row.1).sum::<u64>(), 40);
}

#[test]
fn the_counts_sum_to_the_number_of_recordings() {
    let mut table = SampleTable::new();
    let recordings = ["a", "b", "a", "c", "b", "a", "", "a;b", ""];
    for s in recordings {
        table.record(text(s));
    }
    assert_eq!(table.count(&text("a")), 3);
    assert_eq!(table.count(&text("b")), 2);
    assert_eq!(table.count(&text("c")), 1);
    assert_eq!(table.count(&text("")), 2);
    assert_eq!(table.count(&text("a;b")), 1);
    assert_eq!(table.count(&text("d")), 0);
    assert_eq!(table.entries(), 5);
    assert_eq!(table.total(), recordings.len() as u64);
    let mut rows = table.drain();
    rows.sort();
    assert_eq!(
        rows,
        vec![(text(""), 2), (text("a"), 3), (text("a;b"), 1), (text("b"), 2), (text("c"), 1)]
    );
}

#[test]
fn an_empty_table_drains_to_nothing() {
    let table = SampleTable::new();
    assert_eq!(table.count(&text("main")), 0);
    assert_eq!(table.total(), 0);
    assert_eq!(table.entries(), 0);
    assert!(table.drain().is_empty());
}

#[test]
fn a_line_is_the_signature_and_the_count() {
    assert_eq!(format_line(&text("main"), 1), "main 1");
    assert_eq!(format_line(&text("main;run;leaf"), 1234), "main;run;leaf 1234");
    assert_eq!(format_line(&text(""), 7), " 7");
    assert_eq!(format_line(&text("a"), u64::MAX), "a 18446744073709551615");
    assert_eq!(format_line(&text("a"), 0), "a 0");
}

#[test]
fn lines_follow_the_rows() {
    let rows = vec![(text("main;a"), 3), (text("main;b"), 10)];
    assert_eq!(format_lines(&rows), vec![text("main;a 3"), text("main;b 10")]);
    assert!(format_lines(&Vec::new()).is_empty());
}
