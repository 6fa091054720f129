use mcplex::protocol::{RegisteredTool, ToolDefinition};
use mcplex::router::keyword::{build_tool_text as keyword_tool_text, is_stopword, split_tokens, tokenize};
use mcplex::router::semantic::{build_tool_text as semantic_tool_text, expand_name, hash_string, join_words};
use mcplex::router::{schema_properties, tool_properties, PassthroughRouter, ToolRouter};

fn make_tool(name: &str, desc: &str, server: &str) -> RegisteredTool {
    RegisteredTool::new(
        ToolDefinition {
            name: name.to_string(),
            description: Some(desc.to_string()),
            input_schema: None,
        },
        server,
    )
}

fn schema_with_properties() -> serde_json::Value {
    let mut repo = serde_json::Map::new();
    repo.insert("type".to_string(), serde_json::Value::String("string".to_string()));
    repo.insert("description".to_string(), serde_json::Value::String("Repository name".to_string()));
    let mut issue_title = serde_json::Map::new();
    issue_title.insert("type".to_string(), serde_json::Value::String("string".to_string()));
    let mut props = serde_json::Map::new();
    props.insert("repo".to_string(), serde_json::Value::Object(repo));
    props.insert("issueTitle".to_string(), serde_json::Value::Object(issue_title));
    let mut schema = serde_json::Map::new();
    schema.insert("type".to_string(), serde_json::Value::String("object".to_string()));
    schema.insert("properties".to_string(), serde_json::Value::Object(props));
    serde_json::Value::Object(schema)
}

#[test]
fn test_tokenizer() {
    let tokens = tokenize("Create a new GitHub issue tracker");
    assert!(tokens.contains(&"create".to_string()));
    assert!(tokens.contains(&"github".to_string()));
    assert!(!tokens.contains(&"a".to_string())); // Stopword
}

#[test]
fn test_expand_name() {
    assert_eq!(expand_name("createIssue"), "create issue");
    assert_eq!(expand_name("create_issue"), "create issue");
    assert_eq!(expand_name("listPullRequests"), "list pull requests");
}

#[test]
fn tokenizer_exact_tokens() {
    assert_eq!(
        tokenize("Create a new GitHub issue tracker"),
        vec!["create", "new", "github", "issue", "tracker"]
    );
    assert_eq!(tokenize("query_database, x, SQL!"), vec!["query_database", "sql"]);
    assert!(tokenize("").is_empty());
    assert!(tokenize("a an the of").is_empty());
}

#[test]
fn tokenizer_keeps_single_non_ascii_letter() {
    assert_eq!(tokenize("é x"), vec!["é"]);
}

#[test]
fn stopwords_are_recognised() {
    let the: Vec<char> = "the".chars().collect();
    let issue: Vec<char> = "issue".chars().collect();
    assert!(is_stopword(&the));
    assert!(!is_stopword(&issue));
}

#[test]
fn expand_name_edge_cases() {
    assert_eq!(expand_name(""), "");
    assert_eq!(expand_name("__a--b__"), "a b");
    assert_eq!(expand_name("HTTPServer"), "h t t p server");
    assert_eq!(expand_name("Already"), "already");
    assert_eq!(expand_name("kebab-case-name"), "kebab case name");
}

#[test]
fn join_words_uses_single_spaces() {
    assert_eq!(join_words(&vec![]), "");
    assert_eq!(join_words(&vec!["one".to_string()]), "one");
    assert_eq!(join_words(&vec!["a".to_string(), "b".to_string(), "c".to_string()]), "a b c");
}

#[test]
fn keyword_text_of_tool_without_schema() {
    let tool = make_tool("create_issue", "Create a new GitHub issue", "github");
    assert_eq!(keyword_tool_text(&tool), "create_issue github Create a new GitHub issue");
}

#[test]
fn keyword_text_includes_schema_properties() {
    let tool = RegisteredTool::new(
        ToolDefinition {
            name: "create_issue".to_string(),
            description: None,
            input_schema: Some(schema_with_properties()),
        },
        "github",
    );
    // serde_json keeps object keys sorted: issueTitle before repo.
    assert_eq!(keyword_tool_text(&tool), "create_issue github issueTitle repo Repository name");
}

#[test]
fn semantic_text_expands_names() {
    let tool = RegisteredTool::new(
        ToolDefinition {
            name: "createIssue".to_string(),
            description: Some("Open an issue".to_string()),
            input_schema: Some(schema_with_properties()),
        },
        "github",
    );
    assert_eq!(
        semantic_tool_text(&tool),
        "createIssue github create issue Open an issue issueTitle issue title repo repo Repository name"
    );
}

#[test]
fn fnv1a_known_values() {
    assert_eq!(hash_string(""), 0xcbf29ce484222325);
    assert_eq!(hash_string("a"), 0xaf63dc4c8601ec8c);
    assert_eq!(hash_string("foobar"), 0x85944171f73967e8);
}

#[test]
fn passthrough_returns_all_tools() {
    let tools = vec![make_tool("a", "A", "s1"), make_tool("b", "B", "s2")];
    let router = PassthroughRouter;
    let routed = router.route("anything", &tools, 1);
    assert_eq!(routed.len(), 2);
    assert_eq!(routed[0].fqn, "s1/a");
    assert_eq!(routed[1].fqn, "s2/b");
    assert_eq!(router.name(), "passthrough");
}

#[test]
fn tool_properties_come_from_the_schema() {
    let tool = RegisteredTool::new(
        ToolDefinition {
            name: "create_issue".to_string(),
            description: None,
            input_schema: Some(schema_with_properties()),
        },
        "github",
    );
    let props = tool_properties(&tool);
    assert_eq!(props.len(), 2);
    assert_eq!(props[0].name, "issueTitle");
    assert_eq!(props[0].description, None);
    assert_eq!(props[1].name, "repo");
    assert_eq!(props[1].description.as_deref(), Some("Repository name"));
    assert!(tool_properties(&make_tool("t", "d", "s")).is_empty());
}

#[test]
fn schemas_without_a_properties_object_have_no_properties() {
    let mut schema = serde_json::Map::new();
    schema.insert("properties".to_string(), serde_json::Value::String("none".to_string()));
    assert!(schema_properties(&serde_json::Value::Object(schema)).is_empty());
    assert!(schema_properties(&serde_json::Value::Null).is_empty());
}

#[test]
fn split_tokens_works_on_lowercase_text() {
    assert_eq!(split_tokens("the quick-brown fox a b2"), vec!["quick", "brown", "fox", "b2"]);
    // Already lowercased input is split as it is: nothing is lowercased here.
    assert_eq!(split_tokens("GitHub issue"), vec!["GitHub", "issue"]);
    assert!(split_tokens("").is_empty());
}
