use cerussite::judge::{judge, ExecutionResult};

fn ran(status: Option<i32>, stdout: &str, stderr: &str) -> ExecutionResult {
    ExecutionResult::Success { status, stdout: stdout.to_string(), stderr: stderr.to_string() }
}

#[test]
fn same_status_and_output_pass() {
    assert!(judge(&ran(Some(42), "", ""), &ran(Some(42), "", "warning")));
    assert!(judge(&ran(None, "x", ""), &ran(None, "x", "")));
}

#[test]
fn any_difference_fails() {
    assert!(!judge(&ran(Some(42), "", ""), &ran(Some(43), "", "")));
    assert!(!judge(&ran(Some(0), "a", ""), &ran(Some(0), "b", "")));
    assert!(!judge(&ran(Some(0), "", ""), &ran(None, "", "")));
    assert!(!judge(&ran(Some(0), "", ""), &ExecutionResult::Unreached));
    assert!(!judge(&ExecutionResult::Unreached, &ExecutionResult::Unreached));
}
