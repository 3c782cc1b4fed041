use microservice::http::{empty_response, i64_to_dec, index_response, u64_to_dec};
use microservice::service::{
    create_user_response, delete_user_response, get_user_response, list_users_response,
    update_user_response, UserStore,
};
use microservice::store::Store;

#[test]
fn decimal_rendering_is_exact() {
    assert_eq!(u64_to_dec(0), b"0".to_vec());
    assert_eq!(u64_to_dec(7), b"7".to_vec());
    assert_eq!(u64_to_dec(1234567890), b"1234567890".to_vec());
    assert_eq!(u64_to_dec(u64::MAX), b"18446744073709551615".to_vec());
    assert_eq!(i64_to_dec(-5), b"-5".to_vec());
    assert_eq!(i64_to_dec(10), b"10".to_vec());
    assert_eq!(i64_to_dec(i64::MIN), b"-9223372036854775808".to_vec());
}

#[test]
fn index_page_and_empty_responses() {
    let page = index_response();
    assert_eq!(page.status, 200);
    let text = String::from_utf8(page.body).unwrap();
    assert!(text.contains("Rust Microservice"));
    let nf = empty_response(404);
    assert_eq!(nf.status, 404);
    assert!(nf.body.is_empty());
}

#[test]
fn create_answers_with_the_new_id() {
    let mut store: UserStore = Store::new();
    let first = create_user_response(&mut store);
    assert_eq!(first.status, 200);
    assert_eq!(first.body, b"0".to_vec());
    let second = create_user_response(&mut store);
    assert_eq!(second.status, 200);
    assert_eq!(second.body, b"1".to_vec());
}

#[test]
fn get_update_delete_answer_by_liveness() {
    let mut store: UserStore = Store::new();
    create_user_response(&mut store);
    let got = get_user_response(&store, 0);
    assert_eq!(got.status, 200);
    assert_eq!(got.body, b"{}".to_vec());
    assert_eq!(get_user_response(&store, 1).status, 404);
    assert_eq!(update_user_response(&mut store, 0).status, 200);
    assert_eq!(update_user_response(&mut store, 3).status, 404);
    assert_eq!(delete_user_response(&mut store, 0).status, 200);
    assert_eq!(delete_user_response(&mut store, 0).status, 404);
    assert_eq!(get_user_response(&store, 0).status, 404);
}

#[test]
fn listing_joins_live_ids_with_commas() {
    let mut store: UserStore = Store::new();
    assert_eq!(list_users_response(&store).body, Vec::<u8>::new());
    for _ in 0..3 {
        create_user_response(&mut store);
    }
    assert_eq!(list_users_response(&store).body, b"0,1,2".to_vec());
    delete_user_response(&mut store, 1);
    let listing = list_users_response(&store);
    assert_eq!(listing.status, 200);
    assert_eq!(listing.body, b"0,2".to_vec());
}

#[test]
fn create_delete_create_reuses_the_first_id() {
    let mut store: UserStore = Store::new();
    let first = create_user_response(&mut store);
    let second = create_user_response(&mut store);
    assert_eq!(first.body, b"0".to_vec());
    assert_eq!(second.body, b"1".to_vec());
    assert_eq!(delete_user_response(&mut store, 0).status, 200);
    let third = create_user_response(&mut store);
    assert_eq!(third.body, first.body);
    assert_eq!(list_users_response(&store).body, b"0,1".to_vec());
}
