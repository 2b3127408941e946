use travels::api::Api;
use travels::data::{Gender, Location, LocationId, User, UserId, Visit, VisitId};
use travels::database::Database;
use travels::request::{
    CreateEntity, GetAverageLocationRating, GetEntity, GetRequest, GetVisits, Optional,
    PostRequest, UpdateEntity, UserUpdate, VisitUpdate,
};
use travels::response::{GetResponse, Status, VisitItem};

const YEAR: i64 = 31557600;

fn user(id: u32, birth_date: i64, gender: Gender) -> User {
    User {
        id: UserId(id),
        email: format!("user{}@example.com", id),
        first_name: format!("First{}", id),
        last_name: format!("Last{}", id),
        gender,
        birth_date,
    }
}

fn location(id: u32, country: &str, distance: u32) -> Location {
    Location {
        id: LocationId(id),
        place: format!("place{}", id),
        country: country.to_string(),
        city: format!("city{}", id),
        distance,
    }
}

fn visit(id: u32, loc: u32, usr: u32, visited_at: i64, mark: u8) -> Visit {
    Visit {
        id: VisitId(id),
        location: LocationId(loc),
        user: UserId(usr),
        visited_at,
        mark,
    }
}

fn no_visit_update() -> VisitUpdate {
    VisitUpdate {
        location: Optional::Nothing,
        user: Optional::Nothing,
        visited_at: Optional::Nothing,
        mark: Optional::Nothing,
    }
}

fn small_api() -> Api {
    let mut api = Api { database: Database::default(), now: 1_000_000_000 };
    api.create_entity(CreateEntity::User(user(1, 345081600, Gender::Male))).unwrap();
    api.create_entity(CreateEntity::Location(location(1, "X", 50))).unwrap();
    api.create_entity(CreateEntity::Visit(visit(1, 1, 1, 100, 4))).unwrap();
    api
}

fn listing(api: &Api, user_id: u32, p: GetVisits) -> Result<Vec<VisitItem>, Status> {
    api.get_visits(UserId(user_id), p)
}

fn visits_filter(from: Option<i64>, to: Option<i64>) -> GetVisits {
    GetVisits { from_date: from, to_date: to, country: None, to_distance: None }
}

fn avg_filter() -> GetAverageLocationRating {
    GetAverageLocationRating::default()
}

#[test]
fn example_scenario() {
    let api = small_api();
    let rows = listing(&api, 1, visits_filter(Some(50), Some(150))).unwrap();
    assert_eq!(
        rows,
        vec![VisitItem { mark: 4, visited_at: 100, place: "place1".to_string() }]
    );
    let avg = api.get_average_location_rating(LocationId(1), avg_filter()).unwrap();
    assert_eq!(avg, 400000);
}

#[test]
fn boundary_timestamps_are_excluded() {
    let api = small_api();
    assert_eq!(listing(&api, 1, visits_filter(Some(100), Some(150))).unwrap(), vec![]);
    assert_eq!(listing(&api, 1, visits_filter(Some(50), Some(100))).unwrap(), vec![]);
    let mut p = avg_filter();
    p.from_date = Some(100);
    assert_eq!(api.get_average_location_rating(LocationId(1), p).unwrap(), 0);
    let mut p = avg_filter();
    p.to_date = Some(100);
    assert_eq!(api.get_average_location_rating(LocationId(1), p).unwrap(), 0);
}

#[test]
fn empty_range_short_circuits() {
    let api = small_api();
    assert_eq!(listing(&api, 1, visits_filter(Some(200), Some(120))).unwrap(), vec![]);
    assert_eq!(listing(&api, 1, visits_filter(Some(120), Some(120))).unwrap(), vec![]);
    let mut p = avg_filter();
    p.from_date = Some(120);
    p.to_date = Some(90);
    assert_eq!(api.get_average_location_rating(LocationId(1), p).unwrap(), 0);
}

#[test]
fn referential_guard_on_create() {
    let mut api = small_api();
    assert_eq!(
        api.create_entity(CreateEntity::Visit(visit(9, 1, 77, 100, 3))),
        Err(Status::Invalid)
    );
    assert_eq!(
        api.create_entity(CreateEntity::Visit(visit(9, 77, 1, 100, 3))),
        Err(Status::Invalid)
    );
    assert_eq!(
        api.get_entity(GetEntity::Visit(VisitId(9))),
        Err(Status::NotFound)
    );
}

#[test]
fn referential_guard_on_update() {
    let mut api = small_api();
    let mut up = no_visit_update();
    up.user = Optional::Something(UserId(77));
    assert_eq!(
        api.update_entity(UpdateEntity::Visit(VisitId(1), up)),
        Err(Status::Invalid)
    );
    let mut up = no_visit_update();
    up.location = Optional::Something(LocationId(77));
    assert_eq!(
        api.update_entity(UpdateEntity::Visit(VisitId(1), up)),
        Err(Status::Invalid)
    );
    // nothing was applied
    assert_eq!(
        api.get_entity(GetEntity::Visit(VisitId(1))),
        Ok(GetResponse::Visit(visit(1, 1, 1, 100, 4)))
    );
}

#[test]
fn average_of_two_marks_rounds_to_fixed_point() {
    let mut api = small_api();
    api.create_entity(CreateEntity::User(user(2, 0, Gender::Female))).unwrap();
    api.create_entity(CreateEntity::Visit(visit(2, 1, 2, 200, 3))).unwrap();
    let avg = api.get_average_location_rating(LocationId(1), avg_filter()).unwrap();
    assert_eq!(avg, 350000);
}

#[test]
fn average_rounds_half_away_from_zero() {
    let mut api = small_api();
    api.create_entity(CreateEntity::Visit(visit(2, 1, 1, 200, 3))).unwrap();
    api.create_entity(CreateEntity::Visit(visit(3, 1, 1, 300, 1))).unwrap();
    // marks 4, 3, 1: mean 8/3 = 2.666666... renders as 2.66667
    let avg = api.get_average_location_rating(LocationId(1), avg_filter()).unwrap();
    assert_eq!(avg, 266667);
}

#[test]
fn average_with_no_qualifying_visits_is_zero() {
    let api = small_api();
    let mut p = avg_filter();
    p.gender = Some(Gender::Female);
    assert_eq!(api.get_average_location_rating(LocationId(1), p).unwrap(), 0);
}

#[test]
fn uniqueness_of_ids_on_create() {
    let mut api = small_api();
    assert_eq!(
        api.create_entity(CreateEntity::User(user(1, 999, Gender::Female))),
        Err(Status::Invalid)
    );
    assert_eq!(
        api.create_entity(CreateEntity::Location(location(1, "Y", 7))),
        Err(Status::Invalid)
    );
    assert_eq!(
        api.create_entity(CreateEntity::Visit(visit(1, 1, 1, 100, 4))),
        Err(Status::Invalid)
    );
    // the first payloads are untouched
    assert_eq!(
        api.get_entity(GetEntity::User(UserId(1))),
        Ok(GetResponse::User(user(1, 345081600, Gender::Male)))
    );
    assert_eq!(
        api.get_entity(GetEntity::Location(LocationId(1))),
        Ok(GetResponse::Location(location(1, "X", 50)))
    );
}

#[test]
fn empty_update_changes_nothing() {
    let mut api = small_api();
    let before = listing(&api, 1, visits_filter(None, None)).unwrap();
    assert_eq!(
        api.update_entity(UpdateEntity::Visit(VisitId(1), no_visit_update())),
        Ok(())
    );
    let after = listing(&api, 1, visits_filter(None, None)).unwrap();
    assert_eq!(before, after);
    assert_eq!(
        api.get_entity(GetEntity::Visit(VisitId(1))),
        Ok(GetResponse::Visit(visit(1, 1, 1, 100, 4)))
    );
}

#[test]
fn update_rehomes_user_index() {
    let mut api = small_api();
    api.create_entity(CreateEntity::User(user(2, 0, Gender::Female))).unwrap();
    let mut up = no_visit_update();
    up.user = Optional::Something(UserId(2));
    api.update_entity(UpdateEntity::Visit(VisitId(1), up)).unwrap();
    assert_eq!(listing(&api, 1, visits_filter(None, None)).unwrap(), vec![]);
    assert_eq!(
        listing(&api, 2, visits_filter(None, None)).unwrap(),
        vec![VisitItem { mark: 4, visited_at: 100, place: "place1".to_string() }]
    );
}

#[test]
fn update_rehomes_location_index() {
    let mut api = small_api();
    api.create_entity(CreateEntity::Location(location(2, "Y", 10))).unwrap();
    let mut up = no_visit_update();
    up.location = Optional::Something(LocationId(2));
    api.update_entity(UpdateEntity::Visit(VisitId(1), up)).unwrap();
    assert_eq!(api.get_average_location_rating(LocationId(1), avg_filter()).unwrap(), 0);
    assert_eq!(
        api.get_average_location_rating(LocationId(2), avg_filter()).unwrap(),
        400000
    );
    // the listing now shows the new location's place name
    assert_eq!(
        listing(&api, 1, visits_filter(None, None)).unwrap(),
        vec![VisitItem { mark: 4, visited_at: 100, place: "place2".to_string() }]
    );
}

#[test]
fn update_moves_timestamp() {
    let mut api = small_api();
    let mut up = no_visit_update();
    up.visited_at = Optional::Something(500);
    api.update_entity(UpdateEntity::Visit(VisitId(1), up)).unwrap();
    assert_eq!(listing(&api, 1, visits_filter(Some(50), Some(150))).unwrap(), vec![]);
    assert_eq!(
        listing(&api, 1, visits_filter(Some(450), Some(550))).unwrap(),
        vec![VisitItem { mark: 4, visited_at: 500, place: "place1".to_string() }]
    );
}

#[test]
fn mark_update_refreshes_index_copy() {
    let mut api = small_api();
    let mut up = no_visit_update();
    up.mark = Optional::Something(5);
    api.update_entity(UpdateEntity::Visit(VisitId(1), up)).unwrap();
    assert_eq!(
        listing(&api, 1, visits_filter(None, None)).unwrap(),
        vec![VisitItem { mark: 5, visited_at: 100, place: "place1".to_string() }]
    );
    assert_eq!(api.get_average_location_rating(LocationId(1), avg_filter()).unwrap(), 500000);
}

#[test]
fn country_filter_is_exact() {
    let api = small_api();
    let mut p = visits_filter(None, None);
    p.country = Some("X".to_string());
    assert_eq!(listing(&api, 1, p).unwrap().len(), 1);
    let mut p = visits_filter(None, None);
    p.country = Some("x".to_string());
    assert_eq!(listing(&api, 1, p).unwrap(), vec![]);
    let mut p = visits_filter(None, None);
    p.country = Some("XX".to_string());
    assert_eq!(listing(&api, 1, p).unwrap(), vec![]);
}

#[test]
fn distance_filter_bound_is_exclusive() {
    let api = small_api();
    // the location's distance is 50: kept only when 50 < to_distance
    let mut p = visits_filter(None, None);
    p.to_distance = Some(50);
    assert_eq!(listing(&api, 1, p).unwrap(), vec![]);
    let mut p = visits_filter(None, None);
    p.to_distance = Some(51);
    assert_eq!(listing(&api, 1, p).unwrap().len(), 1);
}

#[test]
fn listing_is_ascending_by_timestamp() {
    let mut api = small_api();
    api.create_entity(CreateEntity::Visit(visit(2, 1, 1, 50, 2))).unwrap();
    api.create_entity(CreateEntity::Visit(visit(3, 1, 1, 300, 1))).unwrap();
    let rows = listing(&api, 1, visits_filter(None, None)).unwrap();
    let times: Vec<i64> = rows.iter().map(|r| r.visited_at).collect();
    assert_eq!(times, vec![50, 100, 300]);
}

#[test]
fn age_filters_invert_into_birth_dates() {
    let now = 1_000_000_000;
    let mut api = Api { database: Database::default(), now };
    // about three years old: counted for ages strictly between 2 and 4
    api.create_entity(CreateEntity::User(user(1, now - 3 * YEAR, Gender::Male))).unwrap();
    // about one year old: too young for from_age = 2
    api.create_entity(CreateEntity::User(user(2, now - YEAR, Gender::Male))).unwrap();
    api.create_entity(CreateEntity::Location(location(1, "X", 50))).unwrap();
    api.create_entity(CreateEntity::Visit(visit(1, 1, 1, 100, 4))).unwrap();
    api.create_entity(CreateEntity::Visit(visit(2, 1, 2, 200, 2))).unwrap();
    let mut p = avg_filter();
    p.from_age = Some(2);
    p.to_age = Some(4);
    assert_eq!(api.get_average_location_rating(LocationId(1), p).unwrap(), 400000);
    let mut p = avg_filter();
    p.to_age = Some(2);
    assert_eq!(api.get_average_location_rating(LocationId(1), p).unwrap(), 200000);
}

#[test]
fn gender_filter_selects_matching_users() {
    let mut api = small_api();
    api.create_entity(CreateEntity::User(user(2, 0, Gender::Female))).unwrap();
    api.create_entity(CreateEntity::Visit(visit(2, 1, 2, 200, 2))).unwrap();
    let mut p = avg_filter();
    p.gender = Some(Gender::Female);
    assert_eq!(api.get_average_location_rating(LocationId(1), p).unwrap(), 200000);
    let mut p = avg_filter();
    p.gender = Some(Gender::Male);
    assert_eq!(api.get_average_location_rating(LocationId(1), p).unwrap(), 400000);
}

#[test]
fn missing_ids_give_not_found() {
    let mut api = small_api();
    assert_eq!(api.get_entity(GetEntity::User(UserId(9))), Err(Status::NotFound));
    assert_eq!(api.get_entity(GetEntity::Location(LocationId(9))), Err(Status::NotFound));
    assert_eq!(api.get_entity(GetEntity::Visit(VisitId(9))), Err(Status::NotFound));
    assert_eq!(listing(&api, 9, visits_filter(None, None)), Err(Status::NotFound));
    assert_eq!(
        api.get_average_location_rating(LocationId(9), avg_filter()),
        Err(Status::NotFound)
    );
    let up = UserUpdate {
        email: Optional::Nothing,
        first_name: Optional::Nothing,
        last_name: Optional::Nothing,
        gender: Optional::Nothing,
        birth_date: Optional::Nothing,
    };
    assert_eq!(
        api.update_entity(UpdateEntity::User(UserId(9), up)),
        Err(Status::NotFound)
    );
    assert_eq!(
        api.update_entity(UpdateEntity::Visit(VisitId(9), no_visit_update())),
        Err(Status::NotFound)
    );
}

#[test]
fn dangling_index_entry_reports_internal() {
    let mut api = Api { database: Database::default(), now: 0 };
    api.database.load_user(user(1, 0, Gender::Male));
    // a visit whose location was never loaded
    assert!(api.database.load_visit(visit(1, 9, 1, 100, 4)));
    assert_eq!(
        listing(&api, 1, visits_filter(None, None)),
        Err(Status::Internal)
    );
    // a visit whose user was never loaded: only user filters notice
    api.database.load_location(location(2, "X", 50));
    assert!(api.database.load_visit(visit(2, 2, 9, 200, 3)));
    let mut p = avg_filter();
    p.gender = Some(Gender::Male);
    assert_eq!(
        api.get_average_location_rating(LocationId(2), p),
        Err(Status::Internal)
    );
    // without user filters no user record is consulted
    assert_eq!(
        api.get_average_location_rating(LocationId(2), avg_filter()).unwrap(),
        300000
    );
}

#[test]
fn bulk_load_tolerates_any_order() {
    let mut api = Api { database: Database::default(), now: 0 };
    assert!(api.database.load_visit(visit(1, 1, 1, 100, 4)));
    api.database.load_location(location(1, "X", 50));
    api.database.load_user(user(1, 0, Gender::Male));
    assert_eq!(
        listing(&api, 1, visits_filter(Some(50), Some(150))).unwrap(),
        vec![VisitItem { mark: 4, visited_at: 100, place: "place1".to_string() }]
    );
    // a reused id is refused and nothing changes
    assert!(!api.database.load_visit(visit(1, 1, 1, 999, 1)));
    assert_eq!(
        api.get_entity(GetEntity::Visit(VisitId(1))),
        Ok(GetResponse::Visit(visit(1, 1, 1, 100, 4)))
    );
}

#[test]
fn partial_user_update_touches_only_given_fields() {
    let mut api = small_api();
    let up = UserUpdate {
        email: Optional::Something("new@example.com".to_string()),
        first_name: Optional::Nothing,
        last_name: Optional::Nothing,
        gender: Optional::Something(Gender::Female),
        birth_date: Optional::Nothing,
    };
    api.update_entity(UpdateEntity::User(UserId(1), up)).unwrap();
    let mut expected = user(1, 345081600, Gender::Male);
    expected.email = "new@example.com".to_string();
    expected.gender = Gender::Female;
    assert_eq!(
        api.get_entity(GetEntity::User(UserId(1))),
        Ok(GetResponse::User(expected))
    );
}

#[test]
fn dispatch_through_requests() {
    let mut api = Api { database: Database::default(), now: 0 };
    api.do_post(PostRequest::CreateEntity(CreateEntity::User(user(1, 0, Gender::Male))))
        .unwrap();
    api.do_post(PostRequest::CreateEntity(CreateEntity::Location(location(1, "X", 50))))
        .unwrap();
    api.do_post(PostRequest::CreateEntity(CreateEntity::Visit(visit(1, 1, 1, 100, 4))))
        .unwrap();
    assert_eq!(
        api.do_get(GetRequest::GetEntity(GetEntity::Visit(VisitId(1)))),
        Ok(GetResponse::Visit(visit(1, 1, 1, 100, 4)))
    );
    assert_eq!(
        api.do_get(GetRequest::GetVisits(UserId(1), visits_filter(None, None))),
        Ok(GetResponse::Visits(vec![VisitItem {
            mark: 4,
            visited_at: 100,
            place: "place1".to_string(),
        }]))
    );
    assert_eq!(
        api.do_get(GetRequest::GetAverageLocationRating(LocationId(1), avg_filter())),
        Ok(GetResponse::Average(400000))
    );
}

#[test]
fn update_of_every_field_rehomes_both_indices() {
    let mut api = small_api();
    api.create_entity(CreateEntity::User(user(2, 0, Gender::Female))).unwrap();
    api.create_entity(CreateEntity::Location(location(2, "Y", 10))).unwrap();
    let up = VisitUpdate {
        location: Optional::Something(LocationId(2)),
        user: Optional::Something(UserId(2)),
        visited_at: Optional::Something(700),
        mark: Optional::Something(1),
    };
    api.update_entity(UpdateEntity::Visit(VisitId(1), up)).unwrap();
    assert_eq!(
        api.get_entity(GetEntity::Visit(VisitId(1))),
        Ok(GetResponse::Visit(visit(1, 2, 2, 700, 1)))
    );
    assert_eq!(listing(&api, 1, visits_filter(None, None)).unwrap(), vec![]);
    assert_eq!(
        listing(&api, 2, visits_filter(None, None)).unwrap(),
        vec![VisitItem { mark: 1, visited_at: 700, place: "place2".to_string() }]
    );
    assert_eq!(api.get_average_location_rating(LocationId(1), avg_filter()).unwrap(), 0);
    assert_eq!(
        api.get_average_location_rating(LocationId(2), avg_filter()).unwrap(),
        100000
    );
}

#[test]
fn partial_location_update_touches_only_given_fields() {
    let mut api = small_api();
    let up = travels::request::LocationUpdate {
        place: Optional::Nothing,
        country: Optional::Something("Z".to_string()),
        city: Optional::Nothing,
        distance: Optional::Something(5),
    };
    api.update_entity(UpdateEntity::Location(LocationId(1), up)).unwrap();
    let mut expected = location(1, "Z", 5);
    expected.place = "place1".to_string();
    expected.city = "city1".to_string();
    assert_eq!(
        api.get_entity(GetEntity::Location(LocationId(1))),
        Ok(GetResponse::Location(expected))
    );
    // the country filter now sees the new country
    let mut p = visits_filter(None, None);
    p.country = Some("Z".to_string());
    assert_eq!(listing(&api, 1, p).unwrap().len(), 1);
}

#[test]
fn average_respects_date_window() {
    let mut api = small_api();
    api.create_entity(CreateEntity::Visit(visit(2, 1, 1, 200, 2))).unwrap();
    api.create_entity(CreateEntity::Visit(visit(3, 1, 1, 300, 5))).unwrap();
    // only the visits at 200 and 300 fall strictly inside (100, 301)
    let mut p = avg_filter();
    p.from_date = Some(100);
    p.to_date = Some(301);
    assert_eq!(api.get_average_location_rating(LocationId(1), p).unwrap(), 350000);
}

#[test]
fn combined_listing_filters() {
    let mut api = small_api();
    api.create_entity(CreateEntity::Location(location(2, "X", 200))).unwrap();
    api.create_entity(CreateEntity::Location(location(3, "Y", 10))).unwrap();
    api.create_entity(CreateEntity::Visit(visit(2, 2, 1, 200, 2))).unwrap();
    api.create_entity(CreateEntity::Visit(visit(3, 3, 1, 300, 5))).unwrap();
    // country X and distance under 100 leaves only the first visit
    let mut p = visits_filter(None, None);
    p.country = Some("X".to_string());
    p.to_distance = Some(100);
    assert_eq!(
        listing(&api, 1, p).unwrap(),
        vec![VisitItem { mark: 4, visited_at: 100, place: "place1".to_string() }]
    );
}

#[test]
fn gender_wire_codes() {
    assert_eq!(Gender::Male.code(), 'm');
    assert_eq!(Gender::Female.code(), 'f');
    assert_eq!(Gender::from_code('m'), Some(Gender::Male));
    assert_eq!(Gender::from_code('f'), Some(Gender::Female));
    assert_eq!(Gender::from_code('x'), None);
}
