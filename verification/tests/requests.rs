use concordia_crossing::model::EQUATION_VERSION;
use concordia_crossing::options::{parse_options, Command};
use concordia_crossing::web::{anyhow_like, branch_name, validate_import, validate_input, BranchRequest};

fn strings(items: &[&str]) -> Vec<String> {
    items.iter().map(|s| s.to_string()).collect()
}

#[test]
fn branch_names() {
    assert_eq!(branch_name(&vec![]), "全有效点基线");
    let request = BranchRequest { excluded_point_ids: strings(&["T-01"]) };
    assert_eq!(branch_name(&request.excluded_point_ids), "排除：T-01");
    assert_eq!(branch_name(&strings(&["T-01", "T-02"])), "排除：T-01, T-02");
}

#[test]
fn input_validation() {
    assert_eq!(validate_input("固定 fixture", 3), Ok(()));
    assert_eq!(validate_input(" \t\u{3000}", 3), Err("运行名称不能为空".to_string()));
    assert_eq!(validate_input("", 0), Err("运行名称不能为空".to_string()));
    assert_eq!(
        validate_input("run", 0),
        Err("至少需要一个点；越界点也必须保留在输入中".to_string())
    );
    assert_eq!(anyhow_like("message"), "message");
}

#[test]
fn import_validation() {
    let runs = vec![("a".to_string(), 2usize), ("  ".to_string(), 1), ("c".to_string(), 0)];
    assert_eq!(validate_import(EQUATION_VERSION, &runs), Err("运行名称不能为空".to_string()));
    assert_eq!(
        validate_import("other-version", &vec![]),
        Err("导入文件的年龄方程常数版本与本服务不一致".to_string())
    );
    assert_eq!(validate_import(EQUATION_VERSION, &vec![("a".to_string(), 1)]), Ok(()));
}

#[test]
fn options_defaults_and_overrides() {
    let parsed = parse_options(&vec![]);
    match parsed.command {
        Command::Serve(o) => {
            assert_eq!(o.listen, "127.0.0.1:5532");
            assert_eq!(o.database, "concordia.db");
            assert!(!o.no_seed);
        }
        _ => panic!("expected serve"),
    }
    let parsed = parse_options(&strings(&[
        "--listen", "0.0.0.0:80", "--database", "./data/run.db", "--no-seed", "--listen", "127.0.0.1:1",
    ]));
    assert_eq!(parsed.addresses, strings(&["0.0.0.0:80", "127.0.0.1:1"]));
    match parsed.command {
        Command::Serve(o) => {
            assert_eq!(o.listen, "127.0.0.1:1");
            assert_eq!(o.database, "./data/run.db");
            assert!(o.no_seed);
        }
        _ => panic!("expected serve"),
    }
}

#[test]
fn options_help_and_errors() {
    assert!(matches!(parse_options(&strings(&["-h"])).command, Command::Help));
    assert!(matches!(parse_options(&strings(&["--no-seed", "--help", "--bogus"])).command, Command::Help));
    match parse_options(&strings(&["--listen"])).command {
        Command::Reject(m) => assert_eq!(m, "--listen requires an address"),
        _ => panic!("expected rejection"),
    }
    match parse_options(&strings(&["--database"])).command {
        Command::Reject(m) => assert_eq!(m, "--database requires a path"),
        _ => panic!("expected rejection"),
    }
    let parsed = parse_options(&strings(&["--listen", "x", "--frob"]));
    assert_eq!(parsed.addresses, strings(&["x"]));
    match parsed.command {
        Command::Reject(m) => assert_eq!(m, "unknown argument: --frob"),
        _ => panic!("expected rejection"),
    }
}
