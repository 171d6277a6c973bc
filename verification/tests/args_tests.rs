use comment_scan::args::collect_cli_args;
use comment_scan::args::plan_run;
use comment_scan::args::RunPlan;
use comment_scan::style::CommentType;

#[test]
fn no_arguments_yield_none() {
    let argv = vec![String::from("program")];
    assert_eq!(collect_cli_args(&argv), None);
    let empty: Vec<String> = vec![];
    assert_eq!(collect_cli_args(&empty), None);
}

#[test]
fn program_name_is_stripped() {
    let argv = vec![
        String::from("program"),
        String::from("./src"),
        String::from("py"),
    ];
    let args = collect_cli_args(&argv).unwrap();
    assert_eq!(args, vec![String::from("./src"), String::from("py")]);
}

#[test]
fn zero_arguments_scan_nothing() {
    let args: Vec<String> = vec![];
    assert_eq!(plan_run(&args, true, true), RunPlan::NotEnoughArguments);
}

#[test]
fn missing_path_scans_nothing() {
    let args = vec![String::from("no/such/dir"), String::from("py")];
    assert_eq!(plan_run(&args, false, false), RunPlan::PathDoesNotExist);
}

#[test]
fn existing_directory_is_scanned_with_last_token_style() {
    let args = vec![String::from("./src"), String::from("py")];
    let plan = plan_run(&args, true, true);
    assert_eq!(
        plan,
        RunPlan::Report {
            path: String::from("./src"),
            style: CommentType::PYTHON,
            scan_directory: true,
        }
    );
}

#[test]
fn a_single_argument_serves_as_path_and_token() {
    let args = vec![String::from("js")];
    let plan = plan_run(&args, true, true);
    assert_eq!(
        plan,
        RunPlan::Report {
            path: String::from("js"),
            style: CommentType::C,
            scan_directory: true,
        }
    );
}

#[test]
fn an_existing_plain_file_reports_without_scanning() {
    let args = vec![String::from("notes.txt")];
    let plan = plan_run(&args, true, false);
    assert_eq!(
        plan,
        RunPlan::Report {
            path: String::from("notes.txt"),
            style: CommentType::DEFAULT,
            scan_directory: false,
        }
    );
}
