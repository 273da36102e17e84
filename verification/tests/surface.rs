use panopt::tool_surface::tool_surface;
use std::collections::HashSet;

#[test]
fn tool_names_are_unique() {
    let mut seen = HashSet::new();
    for def in tool_surface() {
        assert!(
            seen.insert(def.name),
            "duplicate tool name in tool_surface: {}",
            def.name
        );
    }
}

#[test]
fn every_tool_is_told_of() {
    let tools = tool_surface();
    assert_eq!(tools.len(), 44);
    assert_eq!(tools[0].name, "identify");
    assert_eq!(tools[43].name, "id_kind");
    assert_eq!(tools[43].args, "IdKindArgs");
    for def in &tools {
        assert!(!def.description.is_empty(), "{}", def.name);
    }
    let none: Vec<&str> = tools
        .iter()
        .filter(|t| t.args.is_empty())
        .map(|t| t.name)
        .collect();
    assert_eq!(
        none,
        vec![
            "agent_leave",
            "whoami",
            "agent_list",
            "lock_status",
            "note_list",
            "note_tags_list",
            "todo_list",
            "todo_tags_list",
            "agent_tool_list",
            "process_list",
        ]
    );
}
