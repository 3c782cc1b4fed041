use microservice::router::{route, Action, Method};

fn r(m: Method, path: &str) -> Action {
    route(&m, path.as_bytes())
}

#[test]
fn index_paths_serve_the_page_on_get() {
    assert_eq!(r(Method::Get, "/"), Action::ServeIndex);
    assert_eq!(r(Method::Get, "/index.html"), Action::ServeIndex);
    assert_eq!(r(Method::Get, "/index.htm"), Action::ServeIndex);
}

#[test]
fn index_paths_reject_other_methods() {
    assert_eq!(r(Method::Post, "/"), Action::Respond { status: 405 });
    assert_eq!(r(Method::Delete, "/index.html"), Action::Respond { status: 405 });
}

#[test]
fn users_path_lists_on_get_only() {
    assert_eq!(r(Method::Get, "/users"), Action::ListUsers);
    assert_eq!(r(Method::Get, "/users/"), Action::ListUsers);
    assert_eq!(r(Method::Post, "/users"), Action::Respond { status: 405 });
}

#[test]
fn user_collection_creates_on_post() {
    assert_eq!(r(Method::Post, "/user/"), Action::CreateUser);
    assert_eq!(r(Method::Get, "/user/"), Action::Respond { status: 400 });
    assert_eq!(r(Method::Put, "/user/"), Action::Respond { status: 400 });
}

#[test]
fn user_item_methods_map_to_store_operations() {
    assert_eq!(r(Method::Get, "/user/5"), Action::GetUser { id: 5 });
    assert_eq!(r(Method::Put, "/user/5"), Action::UpdateUser { id: 5 });
    assert_eq!(r(Method::Delete, "/user/5"), Action::DeleteUser { id: 5 });
    assert_eq!(r(Method::Get, "/user/12/"), Action::GetUser { id: 12 });
    assert_eq!(r(Method::Post, "/user/5"), Action::Respond { status: 405 });
    assert_eq!(r(Method::Other, "/user/5"), Action::Respond { status: 405 });
}

#[test]
fn user_item_accepts_zero_padded_ids() {
    assert_eq!(r(Method::Get, "/user/007"), Action::GetUser { id: 7 });
    assert_eq!(r(Method::Get, "/user/0"), Action::GetUser { id: 0 });
}

#[test]
fn malformed_id_is_absent_for_post_and_unknown_for_item_methods() {
    assert_eq!(r(Method::Post, "/user/abc"), Action::CreateUser);
    assert_eq!(r(Method::Get, "/user/abc"), Action::Respond { status: 404 });
    assert_eq!(r(Method::Put, "/user/12x"), Action::Respond { status: 404 });
    assert_eq!(r(Method::Delete, "/user/-3"), Action::Respond { status: 404 });
    assert_eq!(r(Method::Other, "/user/abc"), Action::Respond { status: 405 });
}

#[test]
fn oversized_id_is_malformed() {
    let huge = "/user/99999999999999999999999999";
    assert_eq!(r(Method::Get, huge), Action::Respond { status: 404 });
    assert_eq!(r(Method::Post, huge), Action::CreateUser);
}

#[test]
fn user_paths_outside_the_item_shape_are_unknown() {
    assert_eq!(r(Method::Get, "/user"), Action::Respond { status: 404 });
    assert_eq!(r(Method::Get, "/user//"), Action::Respond { status: 404 });
    assert_eq!(r(Method::Get, "/user/1/2"), Action::Respond { status: 404 });
}

#[test]
fn echo_routes_take_post_only() {
    assert_eq!(r(Method::Post, "/echo"), Action::EchoPlain);
    assert_eq!(r(Method::Post, "/echo/uppercase"), Action::EchoUppercase);
    assert_eq!(r(Method::Post, "/echo/reverse"), Action::EchoReverse);
    assert_eq!(r(Method::Get, "/echo"), Action::Respond { status: 405 });
    assert_eq!(r(Method::Get, "/echo/uppercase"), Action::Respond { status: 405 });
    assert_eq!(r(Method::Put, "/echo/reverse"), Action::Respond { status: 405 });
}

#[test]
fn random_route_takes_post_only() {
    assert_eq!(r(Method::Post, "/random"), Action::SampleRandom);
    assert_eq!(r(Method::Get, "/random"), Action::Respond { status: 405 });
}

#[test]
fn unknown_paths_are_not_found() {
    assert_eq!(r(Method::Get, "/nope"), Action::Respond { status: 404 });
    assert_eq!(r(Method::Post, "/echo/rot13"), Action::Respond { status: 404 });
    assert_eq!(r(Method::Get, ""), Action::Respond { status: 404 });
    assert_eq!(r(Method::Get, "/index.ht"), Action::Respond { status: 404 });
}
