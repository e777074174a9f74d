use sqlquerypp::codegen::mysql84::get_node_ordering_key;
use sqlquerypp::error::QueryCompilerError;
use sqlquerypp::parser::Node;
use sqlquerypp::parser::nodes::CompleteCombinedResultNode;
use sqlquerypp::parser::types::NodesState;
use sqlquerypp::scanner::TokenState;
use sqlquerypp::scanner::get_mandatory_succeeding_character_position;
use std::cmp::Ordering;

#[test]
fn keyword_word_yields_keyword_token() {
    let token = TokenState::from_keyword("combined_result".as_bytes(), 42);
    assert!(matches!(token, Some(TokenState::CombinedResultsKeyword(42))));
}

#[test]
fn other_word_yields_no_token() {
    let token = TokenState::from_keyword("combined".as_bytes(), 0);
    assert!(token.is_none());
}

#[test]
fn required_character_is_found_absolutely() {
    let statement = "abc {def".as_bytes();
    let position =
        get_mandatory_succeeding_character_position(2, statement.len(), statement, b'{', "combined_result");
    assert!(matches!(position, Ok(4)));
}

#[test]
fn missing_required_character_names_it() {
    let statement = "abc def".as_bytes();
    let err =
        get_mandatory_succeeding_character_position(0, statement.len(), statement, b'{', "combined_result")
            .unwrap_err();
    assert!(matches!(err, QueryCompilerError::MissingCharacter('{', "combined_result")));
}

#[test]
fn fresh_nodes_state_is_empty() {
    let state: NodesState<u32> = NodesState::new();
    assert!(state.all_nodes.is_empty());
    assert!(state.current_node.is_none());
}

#[test]
fn later_nodes_order_first() {
    let early = CompleteCombinedResultNode::new(
        0,
        10,
        "SELECT a FROM t".to_string(),
        "$v".to_string(),
        5,
        "SELECT b FROM u WHERE u.b = $v".to_string(),
    );
    let late = CompleteCombinedResultNode::new(
        20,
        30,
        "SELECT a FROM t".to_string(),
        "$v".to_string(),
        25,
        "SELECT b FROM u WHERE u.b = $v".to_string(),
    );
    assert_eq!(Ordering::Less, get_node_ordering_key(&late, &early));
    assert_eq!(Ordering::Greater, get_node_ordering_key(&early, &late));
    assert_eq!(0, early.get_begin_position());
    assert_eq!(25, late.get_scope_begin_position());
    assert_eq!(30, late.get_end_position());
}
