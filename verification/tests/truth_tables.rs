use truth_tables::Assignment;
use truth_tables::{BiOp, Expr, FormulaError, MulOp, UnOp};

fn prop(name: &str) -> Expr {
    Expr::prop(name.to_string())
}

#[test]
fn collect_is_sorted_and_unique() {
    // (c ∧ a ∧ (¬c → b) ∧ a): names appear out of order and repeatedly.
    let inner = Expr::bi_con(Expr::un_con(UnOp::Not, prop("c")), BiOp::If, prop("b"));
    let f = Expr::mul_con(MulOp::And, vec![prop("c"), prop("a"), inner, prop("a")]).unwrap();
    let vars = f.get_prepositions_vec();
    assert_eq!(vars, vec!["a".to_string(), "b".to_string(), "c".to_string()]);
}

#[test]
fn collect_single_name() {
    let f = Expr::un_con(UnOp::Not, prop("p"));
    assert_eq!(f.get_prepositions_vec(), vec!["p".to_string()]);
}

#[test]
fn count_leaves_with_duplicates() {
    // a, a, b, c: four proposition leaves.
    let inner = Expr::bi_con(Expr::un_con(UnOp::Not, prop("a")), BiOp::If, prop("b"));
    let f = Expr::mul_con(MulOp::And, vec![prop("a"), inner, prop("c")]).unwrap();
    assert_eq!(f.get_prepositions(), 4);
}

#[test]
fn empty_operand_list_is_rejected() {
    let r = Expr::mul_con(MulOp::And, vec![]);
    assert_eq!(r.unwrap_err(), FormulaError::EmptyOperandList);
}

#[test]
fn eval_reports_unbound_variable() {
    let f = Expr::bi_con(prop("a"), BiOp::If, prop("x"));
    let mut a = Assignment::new();
    assert!(a.insert("a", true));
    let e = f.eval(&a).unwrap_err();
    assert_eq!(e, FormulaError::UnboundVariable("x".to_string()));
}

#[test]
fn assignment_insert_and_get() {
    let mut a = Assignment::new();
    assert_eq!(a.get("x"), None);
    assert!(a.insert("x", true));
    assert_eq!(a.get("x"), Some(true));
    // A second binding of the same name is refused and changes nothing.
    assert!(!a.insert("x", false));
    assert_eq!(a.get("x"), Some(true));
    assert_eq!(a.get("y"), None);
}

#[test]
fn eval_connectives() {
    let mut a = Assignment::new();
    assert!(a.insert("p", true));
    assert!(a.insert("q", false));

    let not_p = Expr::un_con(UnOp::Not, prop("p"));
    assert_eq!(not_p.eval(&a), Ok(false));

    let p_if_q = Expr::bi_con(prop("p"), BiOp::If, prop("q"));
    assert_eq!(p_if_q.eval(&a), Ok(false));
    let q_if_p = Expr::bi_con(prop("q"), BiOp::If, prop("p"));
    assert_eq!(q_if_p.eval(&a), Ok(true));

    let p_iff_q = Expr::bi_con(prop("p"), BiOp::Iff, prop("q"));
    assert_eq!(p_iff_q.eval(&a), Ok(false));

    let and = Expr::mul_con(MulOp::And, vec![prop("p"), prop("q")]).unwrap();
    assert_eq!(and.eval(&a), Ok(false));
    let or = Expr::mul_con(MulOp::Or, vec![prop("p"), prop("q")]).unwrap();
    assert_eq!(or.eval(&a), Ok(true));
    let xor = Expr::mul_con(MulOp::Xor, vec![prop("p"), prop("q")]).unwrap();
    assert_eq!(xor.eval(&a), Ok(true));
}

#[test]
fn eval_is_deterministic() {
    let mut a = Assignment::new();
    assert!(a.insert("p", true));
    assert!(a.insert("q", false));
    let f = Expr::mul_con(MulOp::Xor, vec![prop("p"), prop("q"), prop("p")]).unwrap();
    let first = f.eval(&a);
    let second = f.eval(&a);
    assert_eq!(first, second);
}

#[test]
fn eval_at_parallel_vectors() {
    let vars = vec!["a".to_string(), "b".to_string()];
    let bits = vec![true, false];
    let f = Expr::bi_con(prop("a"), BiOp::If, prop("b"));
    assert_eq!(f.eval_at(&vars, &bits), Ok(false));
    let g = prop("c");
    assert_eq!(
        g.eval_at(&vars, &bits),
        Err(FormulaError::UnboundVariable("c".to_string()))
    );
}

#[test]
fn table_for_negation() {
    let f = Expr::un_con(UnOp::Not, prop("p"));
    let t = f.generate();
    assert_eq!(t.vars, vec!["p".to_string()]);
    assert_eq!(t.rows, vec![vec![false, true], vec![true, false]]);
}

#[test]
fn table_for_tautology() {
    let f = Expr::bi_con(prop("p"), BiOp::Iff, prop("p"));
    let t = f.generate();
    assert_eq!(t.rows.len(), 2);
    for row in &t.rows {
        assert_eq!(row[1], true);
    }
}

#[test]
fn table_for_conjunction() {
    let f = Expr::mul_con(MulOp::And, vec![prop("a"), prop("b")]).unwrap();
    let t = f.generate();
    assert_eq!(t.vars, vec!["a".to_string(), "b".to_string()]);
    assert_eq!(
        t.rows,
        vec![
            vec![false, false, false],
            vec![false, true, false],
            vec![true, false, false],
            vec![true, true, true],
        ]
    );
}

#[test]
fn table_for_implication() {
    let f = Expr::bi_con(prop("a"), BiOp::If, prop("b"));
    let t = f.generate();
    assert_eq!(
        t.rows,
        vec![
            vec![false, false, true],
            vec![false, true, true],
            vec![true, false, false],
            vec![true, true, true],
        ]
    );
}

#[test]
fn table_for_three_way_xor() {
    let f = Expr::mul_con(MulOp::Xor, vec![prop("a"), prop("b"), prop("c")]).unwrap();
    let t = f.generate();
    assert_eq!(t.rows.len(), 8);
    for (index, row) in t.rows.iter().enumerate() {
        // Column i carries bit 2 - i of the row index.
        for i in 0..3 {
            assert_eq!(row[i], (index >> (2 - i)) & 1 == 1);
        }
        let ones = row[..3].iter().filter(|b| **b).count();
        assert_eq!(row[3], ones == 1);
    }
}

#[test]
fn table_rows_cover_every_combination_once() {
    let f = Expr::mul_con(
        MulOp::Or,
        vec![prop("a"), prop("b"), prop("c"), prop("d")],
    )
    .unwrap();
    let t = f.generate();
    assert_eq!(t.rows.len(), 16);
    let mut seen = vec![false; 16];
    for row in &t.rows {
        let mut key = 0usize;
        for i in 0..4 {
            key = key * 2 + if row[i] { 1 } else { 0 };
        }
        assert!(!seen[key]);
        seen[key] = true;
    }
    assert!(seen.iter().all(|s| *s));
}

#[test]
fn render_canonical_text() {
    let inner = Expr::bi_con(Expr::un_con(UnOp::Not, prop("a")), BiOp::If, prop("b"));
    let f = Expr::mul_con(MulOp::And, vec![prop("a"), inner, prop("c")]).unwrap();
    assert_eq!(f.render(), "(a \u{2227} (\u{ac}a \u{2192} b) \u{2227} c)");
    let iff = Expr::bi_con(prop("p"), BiOp::Iff, prop("q"));
    assert_eq!(iff.render(), "(p \u{2194} q)");
    let or = Expr::mul_con(MulOp::Or, vec![prop("p"), prop("q")]).unwrap();
    assert_eq!(or.render(), "(p \u{2228} q)");
    let xor = Expr::mul_con(MulOp::Xor, vec![prop("p"), prop("q")]).unwrap();
    assert_eq!(xor.render(), "(p \u{2295} q)");
    assert_eq!(prop("z").render(), "z");
}

#[test]
fn table_text_lines() {
    let f = Expr::mul_con(MulOp::And, vec![prop("a"), prop("b")]).unwrap();
    let t = f.generate();
    assert_eq!(t.header_line(), "a | b | ");
    assert_eq!(t.row_line(0), "F | F | F | ");
    assert_eq!(t.row_line(3), "T | T | T | ");
}
