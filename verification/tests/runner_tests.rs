use html_bench::runner::{summarize, warmup_iterations, Report, Runner, Step};
use html_bench::tree::{Node, NodeData};

fn text_document(contents: &str) -> Node {
    Node {
        data: NodeData::Document,
        children: vec![Node {
            data: NodeData::Text { contents: contents.to_string() },
            children: Vec::new(),
        }],
    }
}

#[test]
fn warmup_count_at_the_given_points() {
    assert_eq!(warmup_iterations(1), 1);
    assert_eq!(warmup_iterations(10), 2);
    assert_eq!(warmup_iterations(25), 3);
    assert_eq!(warmup_iterations(1000), 3);
}

#[test]
fn warmup_count_at_the_steps() {
    assert_eq!(warmup_iterations(3), 1);
    assert_eq!(warmup_iterations(9), 1);
    assert_eq!(warmup_iterations(19), 2);
    assert_eq!(warmup_iterations(20), 3);
    assert_eq!(warmup_iterations(50), 3);
    assert_eq!(warmup_iterations(usize::MAX), 3);
}

#[test]
fn summarize_one_sample() {
    let s = summarize(&vec![42]);
    assert_eq!(s.total_nanos, 42);
    assert_eq!(s.min_nanos, 42);
    assert_eq!(s.max_nanos, 42);
}

#[test]
fn summarize_several_samples() {
    let s = summarize(&vec![300, 100, 200, 100, 500]);
    assert_eq!(s.total_nanos, 1200);
    assert_eq!(s.min_nanos, 100);
    assert_eq!(s.max_nanos, 500);
}

#[test]
fn summarize_does_not_overflow() {
    let s = summarize(&vec![u64::MAX, u64::MAX, 1]);
    assert_eq!(s.total_nanos, 2 * (u64::MAX as u128) + 1);
    assert_eq!(s.min_nanos, 1);
    assert_eq!(s.max_nanos, u64::MAX);
}

#[test]
fn a_run_of_one_iteration() {
    let mut runner = Runner::new("one.html".to_string(), "<p>1\u{e9}", 1);
    assert_eq!(runner.next_step(), Step::Warmup);
    runner.record_warmup();
    assert_eq!(runner.next_step(), Step::MeasureLast);
    runner.record_last_sample(1_500, text_document("only"));
    assert_eq!(runner.next_step(), Step::Finish);
    let result = runner.finish();
    assert_eq!(result.file, "one.html");
    assert_eq!(result.size_bytes, 6);
    assert_eq!(result.iterations, 1);
    assert_eq!(result.total_nanos, 1_500);
    assert_eq!(result.min_nanos, 1_500);
    assert_eq!(result.max_nanos, 1_500);
    assert_eq!(result.output, "| \"only\"");
}

#[test]
fn a_run_asks_for_the_tree_of_the_last_parse_only() {
    let mut runner = Runner::new("f.html".to_string(), &"x".repeat(1_000), 10);
    let mut trace = String::new();
    let mut measured: u64 = 0;
    loop {
        match runner.next_step() {
            Step::Warmup => {
                trace.push('w');
                runner.record_warmup();
            }
            Step::Measure => {
                trace.push('m');
                measured += 1;
                runner.record_sample(measured * 10);
            }
            Step::MeasureLast => {
                trace.push('L');
                measured += 1;
                runner.record_last_sample(
                    measured * 10,
                    text_document(&format!("parse {}", measured)),
                );
            }
            Step::Finish => break,
        }
    }
    assert_eq!(trace, "wwmmmmmmmmmL");
    let result = runner.finish();
    assert_eq!(result.iterations, 10);
    assert_eq!(result.size_bytes, 1_000);
    assert_eq!(result.total_nanos, 550);
    assert_eq!(result.min_nanos, 10);
    assert_eq!(result.max_nanos, 100);
    assert_eq!(result.output, "| \"parse 10\"");
}

#[test]
fn a_run_of_fifty_has_three_warmups() {
    let mut runner = Runner::new("g.html".to_string(), "<p>hi</p>", 50);
    let mut trace = String::new();
    loop {
        match runner.next_step() {
            Step::Warmup => {
                trace.push('w');
                runner.record_warmup();
            }
            Step::Measure => {
                trace.push('m');
                runner.record_sample(7);
            }
            Step::MeasureLast => {
                trace.push('L');
                runner.record_last_sample(9, text_document("t"));
            }
            Step::Finish => break,
        }
    }
    let expected: String = "w".repeat(3) + &"m".repeat(49) + "L";
    assert_eq!(trace, expected);
    let result = runner.finish();
    assert_eq!(result.total_nanos, 49 * 7 + 9);
    assert_eq!(result.min_nanos, 7);
    assert_eq!(result.max_nanos, 9);
}

#[test]
fn a_run_of_three_has_one_warmup() {
    let mut runner = Runner::new("big.html".to_string(), "", 3);
    assert_eq!(runner.next_step(), Step::Warmup);
    runner.record_warmup();
    assert_eq!(runner.next_step(), Step::Measure);
    runner.record_sample(30);
    assert_eq!(runner.next_step(), Step::Measure);
    runner.record_sample(10);
    assert_eq!(runner.next_step(), Step::MeasureLast);
    runner.record_last_sample(20, Node { data: NodeData::Document, children: Vec::new() });
    assert_eq!(runner.next_step(), Step::Finish);
    let result = runner.finish();
    assert_eq!(result.size_bytes, 0);
    assert_eq!(result.total_nanos, 60);
    assert_eq!(result.min_nanos, 10);
    assert_eq!(result.max_nanos, 30);
    assert_eq!(result.output, "");
}

#[test]
fn a_report_keeps_the_order_of_arrival() {
    let mut report = Report::new();
    assert!(report.results.is_empty());
    for name in ["b.html", "a.html", "c.html"] {
        let mut runner = Runner::new(name.to_string(), name, 1);
        runner.record_warmup();
        runner.record_last_sample(1, text_document(name));
        report.push(runner.finish());
    }
    let files: Vec<&str> = report.results.iter().map(|r| r.file.as_str()).collect();
    assert_eq!(files, vec!["b.html", "a.html", "c.html"]);
    assert_eq!(report.results[1].output, "| \"a.html\"");
}
