use webcortex::manifest::derive_tool_name;

#[test]
fn tool_names_read_like_function_names() {
    assert_eq!(derive_tool_name("GET", "/users/{id}"), "get_users_by_id");
    assert_eq!(derive_tool_name("POST", "/users"), "create_users");
    assert_eq!(derive_tool_name("DELETE", "/a/b/{c}"), "delete_a_b_by_c");
}
