use ant_route::route::{PortalState, Route, Step};

#[test]
fn new_keeps_the_given_steps() {
    let route = Route::new(vec![Step::Empty, Step::Portal(PortalState::Open, 1)]);
    assert_eq!(
        route.steps,
        vec![Step::Empty, Step::Portal(PortalState::Open, 1)]
    );
}

#[test]
fn close_portal_closes_an_open_portal() {
    let route = Route::new(vec![
        Step::Portal(PortalState::Open, 2),
        Step::Empty,
        Step::Empty,
    ]);
    let closed = route.close_portal(0);
    assert_eq!(closed.steps[0], Step::Portal(PortalState::Closed, 2));
    assert_eq!(closed.steps[1], Step::Empty);
    assert_eq!(closed.steps[2], Step::Empty);
}

#[test]
fn close_portal_twice_is_the_same_as_once() {
    let route = Route::new(vec![
        Step::Empty,
        Step::Portal(PortalState::Open, 0),
        Step::Empty,
    ]);
    let once = route.close_portal(1);
    let expected = once.steps.clone();
    let twice = once.close_portal(1);
    assert_eq!(twice.steps, expected);
}

#[test]
fn close_portal_on_an_empty_step_changes_nothing() {
    let route = Route::new(vec![Step::Empty, Step::Portal(PortalState::Open, 0)]);
    let closed = route.close_portal(0);
    assert_eq!(
        closed.steps,
        vec![Step::Empty, Step::Portal(PortalState::Open, 0)]
    );
}

#[test]
fn close_portal_on_a_closed_portal_changes_nothing() {
    let route = Route::new(vec![Step::Portal(PortalState::Closed, 1), Step::Empty]);
    let closed = route.close_portal(0);
    assert_eq!(
        closed.steps,
        vec![Step::Portal(PortalState::Closed, 1), Step::Empty]
    );
}
