use file_spliter::player::extract_player_json;

#[test]
fn player_json_is_cut_out_of_a_watch_page() {
    let html = "<script>var ytInitialPlayerResponse = {\"a\":1};</script>";
    assert_eq!(extract_player_json(html), Some(String::from("{\"a\":1}")));
}

#[test]
fn pages_without_the_assignment_yield_nothing() {
    assert_eq!(extract_player_json("nothing to see"), None);
    assert_eq!(extract_player_json(""), None);
    assert_eq!(extract_player_json("var ytInitialPlayerResponse = 42;"), None);
}

#[test]
fn the_object_ends_at_the_first_closing_brace_semicolon() {
    let html = "var ytInitialPlayerResponse={\"x\":{}};rest};";
    assert_eq!(extract_player_json(html), Some(String::from("{\"x\":{}}")));
}

#[test]
fn whitespace_around_the_equals_sign_is_skipped() {
    let html = "var ytInitialPlayerResponse \t= \n {\"k\":\"v\"};";
    assert_eq!(extract_player_json(html), Some(String::from("{\"k\":\"v\"}")));
}

#[test]
fn an_object_spanning_a_line_break_is_not_accepted() {
    let html = "var ytInitialPlayerResponse = {\"a\"\n:1};";
    assert_eq!(extract_player_json(html), None);
}

#[test]
fn the_search_resumes_after_a_marker_without_an_assignment() {
    let html = "var ytInitialPlayerResponse!! var ytInitialPlayerResponse = {1};";
    assert_eq!(extract_player_json(html), Some(String::from("{1}")));
}
