use webcortex::json::Json;
use webcortex::manifest::{Approval, Op, Route, ToolExposure};
use webcortex::pattern::{read_route, Reading};
use webcortex::router::{can_be_routed, MatchError, Router};

fn route(id: u32, method: &str, path: &str) -> Route {
    Route {
        id,
        method: method.into(),
        path: path.into(),
        op: Op::Static { status: 200, body: Json::Null },
        summary: String::new(),
        description: String::new(),
        input_schema: None,
        output_schema: None,
        tool: ToolExposure::default(),
        scopes: vec![],
        approval: Approval::Never,
        validate_body: false,
    }
}

fn build(paths: &[&str]) -> Result<Router, String> {
    let routes: Vec<Route> = paths.iter().enumerate().map(|(i, p)| route(i as u32, "GET", p)).collect();
    Router::build(&routes)
}

fn fault(paths: &[&str]) -> String {
    match build(paths) {
        Ok(_) => panic!("{paths:?} was taken"),
        Err(e) => e,
    }
}

fn plain(params: usize) -> Reading {
    Reading { params, tangled: false, alike: false }
}

fn many(n: usize) -> String {
    (0..n).map(|i| format!("/{{p{i}}}")).collect()
}

#[test]
fn a_route_has_at_most_twenty_five_ordinary_parameters() {
    assert_eq!(read_route(&many(25)), plain(25));
    let most = build(&[&many(25)]).ok().expect("taken");
    let hit = most.find("GET", &"/x".repeat(25)).expect("found");
    assert_eq!(hit.path_params.get("p24").map(|s| s.as_str()), Some("x"));
    assert!(build(&[&format!("{}/{{*rest}}", many(25))]).is_ok(), "what takes the rest is not counted");
    let one_more = many(26);
    assert_eq!(fault(&[&one_more]), format!("invalid route path {one_more:?}: Too many route parameters"));
}

#[test]
fn braces_that_stand_for_themselves_are_not_counted() {
    assert_eq!(read_route("/{{a}}/{b}"), plain(1));
    assert_eq!(read_route("/{a}}}/x"), plain(1));
    assert_eq!(read_route("/{}/{b}"), plain(0));
    assert_eq!(read_route("/{a/{b}"), plain(0));
    let literal = build(&["/{{a}}/{b}"]).ok().expect("taken");
    assert_eq!(literal.find("GET", "/{a}/7").map(|m| m.route_id).ok(), Some(0));
    assert_eq!(literal.find("GET", "/x/7").map(|m| m.route_id), Err(MatchError::NotFound));
    let touching = build(&["/{a}{{x}}"]).ok().expect("taken");
    assert_eq!(touching.find("GET", "/1{x}").map(|m| m.route_id).ok(), Some(0));
}

#[test]
fn an_escape_right_behind_a_longer_name_is_lost() {
    assert_eq!(read_route("/{ab}{{cd}"), plain(2));
    let most = format!("{}/{{ab}}{{{{cd}}", many(23));
    assert!(fault(&[&most]).ends_with("Only one parameter is allowed per path segment"));
    let over = format!("{}/{{ab}}{{{{cd}}", many(24));
    assert!(fault(&[&over]).ends_with("Too many route parameters"));
}

#[test]
fn malformed_paths_are_refused() {
    assert!(fault(&["/{}"]).ends_with("Parameters must be registered with a valid name"));
    assert!(fault(&["/{*a}/b"]).ends_with("Catch-all parameters are only allowed at the end of a route"));
    assert!(fault(&["/{x}-{y}"]).ends_with("Only one parameter is allowed per path segment"));
    assert!(build(&["/{a}-{{b}}", "/{x}-{y}"]).is_ok(), "the tree takes it beside literal braces");
    assert!(fault(&["/{a}", "/{b}"]).contains("conflict with previously registered route: /{a}"));
}

#[test]
fn conflicts_are_told_though_braces_and_letters_are_unusual() {
    let tangled = "/{p}/{{b}}{qq}/{r}{{x";
    let alike = "/{p}/{{b}}{*z}";
    assert_eq!(read_route(tangled), Reading { params: 3, tangled: true, alike: false });
    assert_eq!(read_route(alike), Reading { params: 1, tangled: false, alike: true });
    assert!(!can_be_routed(&[route(0, "GET", tangled), route(1, "GET", alike)]));
    for path in [tangled, alike] {
        let twice = [route(0, "GET", path), route(1, "POST", path)];
        assert!(can_be_routed(&twice) && Router::build(&twice).is_ok());
    }
    let routes = [route(0, "GET", "/{a}/é"), route(1, "POST", "/{b}/è"), route(2, "PUT", "/{*z}")];
    let r = Router::build(&routes).ok().expect("taken");
    assert_eq!(r.find("POST", "/1/è").map(|m| m.route_id).ok(), Some(1));
    assert_eq!(r.allowed_methods("/1/é"), vec!["GET".to_string(), "PUT".to_string()]);
}

#[test]
fn one_path_may_stand_under_several_methods() {
    let r = Router::build(&[route(0, "GET", "/x/{id}"), route(1, "DELETE", "/x/{id}")]).ok().expect("taken");
    assert_eq!(r.find("delete", "/x/7").map(|m| m.route_id).ok(), Some(1));
    assert_eq!(r.find("PATCH", "/x/7").map(|m| m.route_id), Err(MatchError::MethodNotAllowed));
}
