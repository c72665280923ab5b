use locale_manager::catalog::{infer_language, list_languages, DirEntry};
use locale_manager::estimate::{estimate_seconds, LineCounter};
use locale_manager::error::LocaleError;
use locale_manager::orchestrate::{translator_args, translator_program, Outcome, Step, TranslationRun};

/// Runs a request against a fake translator that fails on the given outputs;
/// returns the invocations made and the final result.
fn drive(run: &mut TranslationRun, failing: &[&str]) -> (Vec<(String, String)>, Result<(), LocaleError>) {
    let mut calls = Vec::new();
    loop {
        match run.next_step() {
            Step::Invoke { input, output } => {
                let fails = failing.contains(&output.as_str());
                calls.push((input, output));
                if fails {
                    run.record(Outcome::Failed("boom".to_string()));
                } else {
                    run.record(Outcome::Succeeded);
                }
            }
            Step::Finished(r) => return (calls, r),
        }
    }
}

fn names(v: &[&str]) -> Vec<String> {
    v.iter().map(|s| s.to_string()).collect()
}

#[test]
fn empty_request_invokes_nothing() {
    let mut run = TranslationRun::new("d", "en.json", vec![]);
    assert_eq!(run.next_step(), Step::Finished(Ok(())));
    let (calls, r) = drive(&mut run, &[]);
    assert!(calls.is_empty());
    assert_eq!(r, Ok(()));
}

#[test]
fn first_failure_stops_the_request() {
    let mut run = TranslationRun::new("d", "en.json", names(&["A", "B"]));
    let (calls, r) = drive(&mut run, &["d/A"]);
    assert_eq!(calls, vec![("d/en.json".to_string(), "d/A".to_string())]);
    assert_eq!(
        r,
        Err(LocaleError::TranslationFailed { target: "A".to_string(), diagnostic: "boom".to_string() })
    );
}

#[test]
fn failure_after_a_success_keeps_the_success() {
    let mut run = TranslationRun::new("d", "en.json", names(&["A", "B", "C"]));
    let (calls, r) = drive(&mut run, &["d/B"]);
    assert_eq!(calls.len(), 2);
    assert_eq!(calls[1].1, "d/B");
    assert_eq!(
        r,
        Err(LocaleError::TranslationFailed { target: "B".to_string(), diagnostic: "boom".to_string() })
    );
}

#[test]
fn single_target_scenario() {
    let mut run = TranslationRun::new("dir", "en.default.json", names(&["fr.default.json"]));
    let (calls, r) = drive(&mut run, &[]);
    assert_eq!(
        calls,
        vec![("dir/en.default.json".to_string(), "dir/fr.default.json".to_string())]
    );
    assert_eq!(r, Ok(()));
}

#[test]
fn targets_run_in_caller_order_once_each() {
    let mut run = TranslationRun::new("d", "en.json", names(&["b", "a", "b", "c", "a"]));
    let (calls, r) = drive(&mut run, &[]);
    let outs: Vec<String> = calls.into_iter().map(|c| c.1).collect();
    assert_eq!(outs, vec!["d/b", "d/a", "d/c"]);
    assert_eq!(r, Ok(()));
}

#[test]
fn finished_request_stays_finished() {
    let mut run = TranslationRun::new("d", "en.json", names(&["A"]));
    let _ = drive(&mut run, &["d/A"]);
    assert_eq!(
        run.next_step(),
        Step::Finished(Err(LocaleError::TranslationFailed {
            target: "A".to_string(),
            diagnostic: "boom".to_string()
        }))
    );
}

#[test]
fn translator_arguments_keep_paths_whole() {
    assert_eq!(translator_program(), "shopify-locale-translator-cli");
    assert_eq!(
        translator_args("d/en.json", "d/x;echo y.json"),
        vec!["translate", "-i", "d/en.json", "-o", "d/x;echo y.json"]
    );
    assert_eq!(
        translator_args("my dir/a b.json", "o.json"),
        vec!["translate", "-i", "my dir/a b.json", "-o", "o.json"]
    );
}

#[test]
fn two_locale_files_scenario() {
    let entries = vec![
        DirEntry { name: "fr.default.json".to_string(), is_dir: false },
        DirEntry { name: "en.default.json".to_string(), is_dir: false },
    ];
    assert_eq!(
        list_languages("dir", Ok(entries)).unwrap(),
        vec!["en.default.json", "fr.default.json"]
    );
    assert_eq!(infer_language("dir", "en.default.json", true), Ok("en".to_string()));
    let text = "  \"key\": \"value\",\n".repeat(600);
    let mut counter = LineCounter::new();
    counter.feed(text.as_bytes());
    assert_eq!(estimate_seconds(Some(counter.lines())), 144);
    let mut run = TranslationRun::new("dir", "en.default.json", names(&["fr.default.json"]));
    let (calls, r) = drive(&mut run, &[]);
    assert_eq!(calls.len(), 1);
    assert_eq!(calls[0], ("dir/en.default.json".to_string(), "dir/fr.default.json".to_string()));
    assert_eq!(r, Ok(()));
}
