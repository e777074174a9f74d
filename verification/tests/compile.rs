use sqlquerypp::codegen::common::format_query_prettily;
use sqlquerypp::error::QueryCompilerError;
use sqlquerypp::preprocess_mysql84_query;
use sqlquerypp::types::CombinedResultNodeSlice;
use sqlquerypp::types::CompiledQueryDescriptor;

fn directive_query() -> String {
    "
            SELECT * FROM
            (
                combined_result (SELECT col_a1 FROM table_a) AS $id_a {
                    SELECT a.col_a1, a.col_a2, b.col_b1, b.col_b2 FROM table_a a
                    INNER JOIN table_b b
                    ON b.col_a1 = a.col_a1 AND b.cond1 = %s AND b.cond2 = %s
                    WHERE a.col_a1 = $id_a
                }
            )
        "
    .to_string()
}

fn sibling_directives_query() -> String {
    "
            SELECT * FROM
            (
                combined_result (SELECT col_a1 FROM table_a) AS $id_a {
                    SELECT a.col_a1, a.col_a2, b.col_b1, b.col_b2 FROM table_a a
                    INNER JOIN table_b b
                    ON b.col_a1 = a.col_a1 AND b.cond1 = %s AND b.cond2 = %s
                    WHERE a.col_a1 = $id_a
                }
                UNION ALL
                combined_result (SELECT col_z1 FROM table_z) AS $id_z {
                    SELECT z.col_z1, z.col_z2, b.col_b1, b.col_b2 FROM table_z z
                    INNER JOIN table_b b
                    ON b.col_z1 = z.col_z1 AND b.cond3 = ? AND b.cond4 = ?
                    WHERE z.col_z1 = $id_z
                }
            )
        "
    .to_string()
}

#[test]
fn empty_input_compiles_to_empty_statement() {
    let artifact = preprocess_mysql84_query(String::new()).unwrap();
    assert_eq!("", artifact.statement);
    assert_eq!(0, artifact.combined_result_node_slices.len());
}

#[test]
fn plain_select_one_has_no_scope_ranges() {
    let artifact = preprocess_mysql84_query("SELECT 1;".to_string()).unwrap();
    assert_eq!(0, artifact.combined_result_node_slices.len());
}

#[test]
fn plain_statement_is_pretty_printed_unchanged() {
    let artifact = preprocess_mysql84_query("SELECT * FROM somewhere;".to_string()).unwrap();
    assert_eq!(0, artifact.combined_result_node_slices.len());
    let expected = format_query_prettily("SELECT * FROM somewhere;").unwrap();
    assert_eq!(expected, artifact.statement);
    assert!(artifact.statement.contains("somewhere"));
}

#[test]
fn directive_expands_to_recursive_cte() {
    let artifact = preprocess_mysql84_query(directive_query()).unwrap();
    assert_eq!(1, artifact.combined_result_node_slices.len());
    assert_eq!(111, artifact.combined_result_node_slices[0].scope_begin);
    assert_eq!(371, artifact.combined_result_node_slices[0].scope_end);
    assert!(artifact.statement.contains("WITH RECURSIVE all_entries"));
    assert!(artifact.statement.contains("SELECT * FROM loop_values LIMIT 1"));
    assert!(artifact.statement.contains("LEFT JOIN table_b"));
    assert!(artifact.statement.contains("n + 1 < (SELECT COUNT(*) FROM loop_values)"));
}

#[test]
fn sibling_directives_expand_independently() {
    let artifact = preprocess_mysql84_query(sibling_directives_query()).unwrap();
    let slices = &artifact.combined_result_node_slices;
    assert_eq!(2, slices.len());
    assert_eq!(111, slices[0].scope_begin);
    assert_eq!(371, slices[0].scope_end);
    assert_eq!(469, slices[1].scope_begin);
    assert_eq!(727, slices[1].scope_end);
    assert!(artifact.statement.contains("WITH RECURSIVE all_entries"));
    assert!(artifact.statement.contains("table_z"));
}

#[test]
fn compiling_twice_is_byte_identical() {
    let first = preprocess_mysql84_query(directive_query()).unwrap();
    let second = preprocess_mysql84_query(directive_query()).unwrap();
    assert_eq!(first.statement, second.statement);
    assert_eq!(
        first.combined_result_node_slices.len(),
        second.combined_result_node_slices.len()
    );
    for i in 0..first.combined_result_node_slices.len() {
        assert_eq!(
            first.combined_result_node_slices[i].scope_begin,
            second.combined_result_node_slices[i].scope_begin
        );
        assert_eq!(
            first.combined_result_node_slices[i].scope_end,
            second.combined_result_node_slices[i].scope_end
        );
    }
}

fn question_mark_directive_query() -> String {
    "
            SELECT * FROM
            (
                combined_result (SELECT col_a1 FROM table_a) AS $id_a {
                    SELECT a.col_a1, a.col_a2, b.col_b1, b.col_b2 FROM table_a a
                    INNER JOIN table_b b
                    ON b.col_a1 = a.col_a1 AND b.cond1 = ? AND b.cond2 = ?
                    WHERE a.col_a1 = $id_a
                }
            )
        "
    .to_string()
}

#[test]
fn recompiling_the_output_leaves_it_alone() {
    let first = preprocess_mysql84_query(question_mark_directive_query()).unwrap();
    let second = preprocess_mysql84_query(first.statement.clone()).unwrap();
    assert_eq!(0, second.combined_result_node_slices.len());
    assert_eq!(first.statement, second.statement);
}

#[test]
fn nested_directives_are_rejected() {
    let query = "combined_result combined_result".to_string();
    let err = preprocess_mysql84_query(query).unwrap_err();
    assert!(matches!(
        err,
        QueryCompilerError::UnsupportedNesting("combined_result", "combined_result")
    ));
}

#[test]
fn nested_directive_inside_open_directive_is_rejected() {
    let query = "
            SELECT * FROM
            (
                combined_result (SELECT col_a1 FROM table_a) AS $id_a {
                    combined_result (SELECT col_z1 FROM table_z) AS $id_z {
                        SELECT z.col_z1 FROM table_z z WHERE z.col_z1 = $id_z
                    }
                }
            )
        "
    .to_string();
    let err = preprocess_mysql84_query(query).unwrap_err();
    assert!(matches!(
        err,
        QueryCompilerError::UnsupportedNesting("combined_result", "combined_result")
    ));
}

#[test]
fn unclosed_directive_is_incomplete() {
    let query = "combined_result (SELECT col_a1 FROM table_a) AS $id_a { SELECT a.col_a1 FROM table_a a WHERE a.col_a1 = $id_a".to_string();
    let err = preprocess_mysql84_query(query).unwrap_err();
    assert!(matches!(
        err,
        QueryCompilerError::DirectiveIncomplete("combined_result", 0)
    ));
}

#[test]
fn directive_incomplete_offset_names_the_keyword() {
    let query = "SELECT * FROM ( combined_result (SELECT col_a1 FROM table_a) AS $id_a { SELECT a.col_a1 FROM table_a a WHERE a.col_a1 = $id_a".to_string();
    let err = preprocess_mysql84_query(query).unwrap_err();
    assert!(matches!(
        err,
        QueryCompilerError::DirectiveIncomplete("combined_result", 16)
    ));
}

#[test]
fn missing_brace_after_iteration_query() {
    let query = "combined_result (SELECT col_a1 FROM table_a) AS $id_a".to_string();
    let err = preprocess_mysql84_query(query).unwrap_err();
    assert!(matches!(err, QueryCompilerError::MissingCharacter('{', "combined_result")));
}

#[test]
fn missing_closing_parenthesis_before_brace() {
    let query = "combined_result (SELECT col_a1 FROM table_a AS $id_a { SELECT a.col_a1 FROM table_a a }".to_string();
    let err = preprocess_mysql84_query(query).unwrap_err();
    assert!(matches!(err, QueryCompilerError::MissingCharacter(')', "combined_result")));
}

#[test]
fn inner_query_without_iteration_variable_is_invalid() {
    let query = "SELECT * FROM ( combined_result (SELECT col_a1 FROM table_a) AS $id_a { SELECT a.col_a1, a.col_a2 FROM table_a a WHERE a.col_a1 = 1 } )".to_string();
    let err = preprocess_mysql84_query(query).unwrap_err();
    assert!(matches!(err, QueryCompilerError::InnerQueryInvalid(_)));
}

#[test]
fn unparseable_inner_query_is_invalid() {
    let query = "SELECT * FROM ( combined_result (SELECT col_a1 FROM table_a) AS $id_a { THIS IS NOT SQL } )".to_string();
    let err = preprocess_mysql84_query(query).unwrap_err();
    assert!(matches!(err, QueryCompilerError::InnerQueryInvalid(_)));
}

#[test]
fn statement_that_is_no_sql_is_rejected_at_the_end() {
    let err = preprocess_mysql84_query("this is not sql".to_string()).unwrap_err();
    assert!(matches!(err, QueryCompilerError::ResultingQueryInvalid(_, _)));
}

#[test]
fn pretty_printer_reformats_its_input() {
    let pretty = format_query_prettily("select   1").unwrap();
    assert_ne!("select   1", pretty);
    assert!(pretty.contains("SELECT"));
}

#[test]
fn iteration_query_is_normalized_in_the_output() {
    let query = "
            SELECT * FROM
            (
                combined_result (select col_a1 from table_a) AS $id_a {
                    SELECT a.col_a1, a.col_a2, b.col_b1, b.col_b2 FROM table_a a
                    INNER JOIN table_b b
                    ON b.col_a1 = a.col_a1 AND b.cond1 = %s AND b.cond2 = %s
                    WHERE a.col_a1 = $id_a
                }
            )
        "
    .to_string();
    let artifact = preprocess_mysql84_query(query).unwrap();
    assert!(!artifact.statement.contains("select col_a1"));
    assert!(artifact.statement.contains("col_a1"));
    assert!(artifact.statement.contains("table_a"));
}

#[test]
fn pretty_printer_rejects_non_sql_and_echoes_it() {
    let err = format_query_prettily("definitely not a query").unwrap_err();
    match err {
        QueryCompilerError::ResultingQueryInvalid(statement, _) => {
            assert_eq!("definitely not a query", statement);
        }
        other => panic!("unexpected error: {other:?}"),
    }
}

#[test]
fn descriptor_new_keeps_its_parts() {
    let slices = vec![CombinedResultNodeSlice { scope_begin: 3, scope_end: 9 }];
    let descriptor = CompiledQueryDescriptor::new("SELECT 1".to_string(), slices);
    assert_eq!("SELECT 1", descriptor.statement);
    assert_eq!(1, descriptor.combined_result_node_slices.len());
    assert_eq!(3, descriptor.combined_result_node_slices[0].scope_begin);
    assert_eq!(9, descriptor.combined_result_node_slices[0].scope_end);
}
