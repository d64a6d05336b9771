use hero_crud::hero::Hero;
use hero_crud::request::Request;
use hero_crud::response::{Body, Response, Status};
use hero_crud::route::{route, Verb};
use hero_crud::service::Service;

fn hero(name: &str) -> Hero {
    Hero::new(name.to_string())
}

fn stored(id: i32, name: &str) -> Hero {
    Hero { id: Some(id), name: name.to_string() }
}

fn serve(service: &mut Service, verb: Verb, path: &str, body: Option<Hero>) -> Option<Response> {
    route(verb, path.as_bytes(), body).map(|request| service.handle(request))
}

fn ok(body: Body) -> Option<Response> {
    Some(Response { status: Status::Success, body })
}

#[test]
fn the_table_has_a_row_for_each_of_the_four_routes() {
    assert_eq!(route(Verb::Get, b"/heroes", None), Some(Request::List));
    assert_eq!(
        route(Verb::Post, b"/hero", Some(hero("A"))),
        Some(Request::Create { body: Some(hero("A")) })
    );
    assert_eq!(
        route(Verb::Put, b"/hero/7", Some(hero("B"))),
        Some(Request::Update { id: b"7".to_vec(), body: Some(hero("B")) })
    );
    assert_eq!(route(Verb::Delete, b"/hero/7", None), Some(Request::Delete { id: b"7".to_vec() }));
}

#[test]
fn a_missing_body_is_handed_on_for_the_handler_to_refuse() {
    assert_eq!(route(Verb::Post, b"/hero", None), Some(Request::Create { body: None }));
    assert_eq!(
        route(Verb::Put, b"/hero/1", None),
        Some(Request::Update { id: b"1".to_vec(), body: None })
    );
}

#[test]
fn the_id_segment_is_handed_on_as_it_is() {
    assert_eq!(
        route(Verb::Delete, b"/hero/not-a-number", None),
        Some(Request::Delete { id: b"not-a-number".to_vec() })
    );
    assert_eq!(
        route(Verb::Delete, b"/hero/-12", None),
        Some(Request::Delete { id: b"-12".to_vec() })
    );
    assert_eq!(
        route(Verb::Put, b"/hero/%31", Some(hero("A"))),
        Some(Request::Update { id: b"%31".to_vec(), body: Some(hero("A")) })
    );
}

#[test]
fn a_path_under_the_wrong_verb_has_no_row() {
    assert_eq!(route(Verb::Post, b"/heroes", Some(hero("A"))), None);
    assert_eq!(route(Verb::Put, b"/heroes", Some(hero("A"))), None);
    assert_eq!(route(Verb::Delete, b"/heroes", None), None);
    assert_eq!(route(Verb::Get, b"/hero", None), None);
    assert_eq!(route(Verb::Get, b"/hero/1", None), None);
    assert_eq!(route(Verb::Post, b"/hero/1", Some(hero("A"))), None);
    assert_eq!(route(Verb::Put, b"/hero", Some(hero("A"))), None);
    assert_eq!(route(Verb::Delete, b"/hero", None), None);
}

#[test]
fn paths_are_matched_byte_for_byte() {
    let verbs = [Verb::Get, Verb::Post, Verb::Put, Verb::Delete];
    let paths: [&[u8]; 16] = [
        b"",
        b"/",
        b"heroes",
        b"hero",
        b"/heroes/",
        b"/hero/",
        b"//hero",
        b"/Heroes",
        b"/HERO",
        b"/heroe",
        b"/heroess",
        b"/hero/1/",
        b"/hero/1/2",
        b"/hero//1",
        b"/herox/1",
        b"/her",
    ];
    for verb in verbs {
        for path in paths {
            assert_eq!(route(verb, path, Some(hero("A"))), None, "{:?} {:?}", verb, path);
        }
    }
}

#[test]
fn end_to_end_over_verbs_and_paths() {
    let mut service = Service::new(2, 0).unwrap();
    assert_eq!(
        serve(&mut service, Verb::Post, "/hero", Some(hero("A"))),
        Some(Response { status: Status::Created, body: Body::Entity(stored(1, "A")) })
    );
    assert_eq!(
        serve(&mut service, Verb::Get, "/heroes", None),
        ok(Body::Entities(vec![stored(1, "A")]))
    );
    assert_eq!(serve(&mut service, Verb::Put, "/hero/1", Some(hero("B"))), ok(Body::Success(true)));
    assert_eq!(
        serve(&mut service, Verb::Get, "/heroes", None),
        ok(Body::Entities(vec![stored(1, "B")]))
    );
    assert_eq!(serve(&mut service, Verb::Delete, "/hero/1", None), ok(Body::Success(true)));
    assert_eq!(serve(&mut service, Verb::Delete, "/hero/1", None), ok(Body::Success(false)));
    assert_eq!(serve(&mut service, Verb::Get, "/villains", None), None);
}
