use binc::application::SimpleApplication;
use binc::change::Change;
use binc::issues::{get_issues_for_search, search_terms, text_holds_all, IssuesApp, SEARCH_LIMIT};
use binc::node_id::NodeId;

fn words(list: &[&str]) -> Vec<String> {
    list.iter().map(|w| w.to_string()).collect()
}

#[test]
fn search_terms_are_lower_case_pieces_between_spaces() {
    assert_eq!(search_terms("Hello World"), words(&["hello", "world"]));
    assert_eq!(search_terms("a  B "), words(&["a", "", "b", ""]));
    assert_eq!(search_terms(" x"), words(&["", "x"]));
    assert_eq!(search_terms(""), words(&[""]));
    assert_eq!(search_terms("ÄÖ Ü"), words(&["äö", "ü"]));
}

#[test]
fn text_holds_all_terms_case_aside() {
    assert!(text_holds_all("Fix the PARSER", &words(&["fix", "parser"])));
    assert!(text_holds_all("Fix the PARSER", &words(&["x t", "he"])));
    assert!(!text_holds_all("Fix the PARSER", &words(&["fix", "lexer"])));
    assert!(!text_holds_all("Fix the PARSER", &words(&["Fix"])));
    assert!(text_holds_all("Fix", &words(&[""])));
    assert!(text_holds_all("", &words(&[])));
    assert!(!text_holds_all("", &words(&["a"])));
}

#[test]
fn empty_search_finds_nothing() {
    let app = SimpleApplication::new();
    assert!(get_issues_for_search(app.document.nodes(), "", 30).is_empty());
}

#[test]
fn search_finds_only_nodes_of_type_issue() {
    let mut app = SimpleApplication::new();
    app.document
        .add_and_apply_change(Change::SetString {
            node: NodeId { index: 2 },
            attribute: "summary".to_string(),
            value: "Fix the parser".to_string(),
        })
        .unwrap();
    assert!(get_issues_for_search(app.document.nodes(), "parser", 30).is_empty());
    assert!(get_issues_for_search(app.document.nodes(), "fix", 0).is_empty());
}

#[test]
fn issues_app_starts_with_an_empty_search() {
    let mut app = IssuesApp::new();
    assert_eq!(app.search_string, "");
    assert!(app.found_issues.is_empty());
    assert_eq!(SEARCH_LIMIT, 30);
    app.search_string = "first".to_string();
    app.found_issues = vec![NodeId { index: 9 }];
    app.update_search();
    assert!(app.found_issues.is_empty());
    assert!(app.get_issues_for_search("first", 5).is_empty());
}

#[test]
fn issues_app_starts_over_the_document_with_its_first_node() {
    let app = IssuesApp::new();
    let document = &app.application.document;
    assert_eq!(
        document.pending_changes().changes,
        vec![
            Change::AddNode { id: NodeId { index: 2 } },
            Change::AddChild { parent: NodeId::root(), child: NodeId { index: 2 }, insertion_index: 0 },
            Change::SetString { node: NodeId { index: 2 }, attribute: "name".to_string(), value: "First".to_string() },
        ]
    );
    assert_eq!(document.find_roots(), &vec![NodeId { index: 2 }]);
    assert_eq!(document.node_count(), 1);
    assert_eq!(document.repository().len(), 0);
    assert!(document.undo_changes().is_empty());
    assert_eq!(app.application.root, NodeId::root());
    assert_eq!(app.application.selected_node, NodeId::none());
    assert_eq!(app.application.selected_node_name, "");
    assert!(app.application.expanded_nodes.is_empty());
    assert!(!app.application.is_editing);
}
