use aur_pkgbuilder::workflow::aur_account::{
    account_query_precheck, merge_account_packages, rpc_answer_rows, AurAccountError,
    AurRpcPackage, Role,
};

fn row(name: &str, version: &str) -> AurRpcPackage {
    AurRpcPackage {
        name: name.into(),
        version: version.into(),
        description: None,
        maintainer: None,
        co_maintainers: vec![],
        last_modified: 0,
        out_of_date: None,
    }
}

#[test]
fn merge_dedups_sorts_and_prefers_maintainer() {
    let maintainer = vec![row("zeta", "1"), row("alpha", "1"), row("zeta", "2")];
    let co = vec![row("beta", "1"), row("alpha", "9"), row("beta", "2")];
    let out = merge_account_packages(maintainer, co);
    let names: Vec<&str> = out.iter().map(|s| s.name.as_str()).collect();
    assert_eq!(names, vec!["alpha", "beta", "zeta"]);
    assert_eq!(out[0].role, Role::Maintainer);
    assert_eq!(out[0].version, "1");
    assert_eq!(out[1].role, Role::CoMaintainer);
    assert_eq!(out[1].version, "1");
    assert_eq!(out[2].role, Role::Maintainer);
    assert_eq!(out[2].version, "2");
}

#[test]
fn merge_of_nothing_is_empty() {
    assert!(merge_account_packages(vec![], vec![]).is_empty());
}

#[test]
fn account_query_precheck_rejects_blank_username() {
    assert!(account_query_precheck("me").is_ok());
    match account_query_precheck("   ") {
        Err(AurAccountError::Rpc(m)) => assert_eq!(m, "username is empty"),
        other => panic!("unexpected {:?}", other),
    }
}

#[test]
fn rpc_answer_error_wins_over_rows() {
    match rpc_answer_rows(Some("Too many package results.".into()), vec![row("a", "1")]) {
        Err(AurAccountError::Rpc(m)) => assert_eq!(m, "Too many package results."),
        other => panic!("unexpected {:?}", other),
    }
    let ok = rpc_answer_rows(None, vec![row("a", "1")]).unwrap();
    assert_eq!(ok.len(), 1);
    assert_eq!(ok[0].name, "a");
}
