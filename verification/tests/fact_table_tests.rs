use polonius::fact_table::{collect_facts, render_rows, Fact, Program, Statement, UnexpectedFact};

fn name(s: &str) -> String {
    s.to_string()
}

fn strings(xs: &[&str]) -> Vec<String> {
    xs.iter().map(|x| x.to_string()).collect()
}

fn fact(n: &str, args: &[&str]) -> Fact {
    Fact { name: name(n), arguments: strings(args) }
}

fn statement(n: &str, text: &str, facts: Vec<Fact>, succs: &[&str]) -> Statement {
    Statement { name: name(n), text: name(text), facts, successors: strings(succs) }
}

#[test]
fn collect_facts_tabulates_relations() {
    let p = Program {
        global_facts: vec![fact("mark_as_loan_origin", &["'a"])],
        statements: vec![
            statement(
                "n1",
                "x = 2",
                vec![fact("access_origin", &["'a"]), fact("clear_origin", &["'b"])],
                &["n2"],
            ),
            statement("n2", "use(x)", vec![fact("invalidate_origin", &["'a"])], &[]),
        ],
    };
    let t = collect_facts(&p).expect("collection failed");
    assert_eq!(t.mark_as_loan_origin, vec![strings(&["'a"])]);
    assert_eq!(t.access_origin, vec![strings(&["'a", "n1"])]);
    assert_eq!(t.cfg_edge, vec![strings(&["n1", "n2"])]);
    assert_eq!(t.clear_origin, vec![strings(&["'b", "n1"])]);
    assert_eq!(t.introduce_subset, Vec::<Vec<String>>::new());
    assert_eq!(t.invalidate_origin, vec![strings(&["'a", "n2"])]);
    assert_eq!(t.node_text, vec![strings(&["x = 2", "n1"]), strings(&["use(x)", "n2"])]);
}

#[test]
fn collect_facts_rejects_unknown_local_names() {
    let p = Program {
        global_facts: vec![],
        statements: vec![statement("n1", "x", vec![fact("bogus_relation", &["'a"])], &[])],
    };
    let err = collect_facts(&p).expect_err("collection unexpectedly succeeded");
    assert_eq!(err, UnexpectedFact { name: name("bogus_relation"), global: false });
}

#[test]
fn collect_facts_rejects_unknown_global_names() {
    let p = Program {
        global_facts: vec![fact("access_origin", &["'a"])],
        statements: vec![],
    };
    let err = collect_facts(&p).expect_err("collection unexpectedly succeeded");
    assert_eq!(err, UnexpectedFact { name: name("access_origin"), global: true });
}

#[test]
fn explicit_cfg_edge_facts_follow_successor_edges() {
    let p = Program {
        global_facts: vec![],
        statements: vec![statement(
            "n1",
            "x",
            vec![fact("cfg_edge", &["n1", "n9"])],
            &["n2", "n3"],
        )],
    };
    let t = collect_facts(&p).expect("collection failed");
    assert_eq!(
        t.cfg_edge,
        vec![strings(&["n1", "n2"]), strings(&["n1", "n3"]), strings(&["n1", "n9", "n1"])]
    );
}

#[test]
fn render_rows_joins_with_tabs() {
    let rows = vec![strings(&["a", "b"]), strings(&["c"]), strings(&[])];
    assert_eq!(render_rows(&rows), "a\tb\nc\n\n");
}
