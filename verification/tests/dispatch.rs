use sto_clare::dispatch::{Handler, Handlers, RefreshRequest};
use sto_clare::refresh::skip_refresh;

fn main_and_overlay() -> Handlers {
    let mut handlers = Handlers::new(Handler { id: 0, auto_refresh: false });
    handlers.add(Handler { id: 1, auto_refresh: true });
    handlers
}

#[test]
fn the_live_refresh_reaches_only_the_following_windows() {
    let handlers = main_and_overlay();
    let a = handlers.announcement(RefreshRequest::Auto);
    assert_eq!(vec![1], a.to);
    assert!(!a.list_only);
}

#[test]
fn a_manual_refresh_reaches_every_window_even_when_the_log_did_not_grow() {
    let handlers = main_and_overlay();
    // The live refresh already announced this size...
    assert!(skip_refresh(true, Some(300), Some(300)));
    // ...a manual refresh is announced anyway, to both windows.
    assert!(!skip_refresh(false, Some(300), Some(300)));
    let a = handlers.announcement(RefreshRequest::Manual);
    assert_eq!(vec![0, 1], a.to);
    assert!(!a.list_only);
}

#[test]
fn a_list_refresh_goes_to_the_asking_window_alone_and_keeps_its_view() {
    let handlers = main_and_overlay();
    let a = handlers.announcement(RefreshRequest::ListFor(0));
    assert_eq!(vec![0], a.to);
    assert!(a.list_only);
    assert!(handlers.announcement(RefreshRequest::ListFor(7)).to.is_empty());
}

#[test]
fn the_live_refresh_runs_while_a_window_follows_it() {
    let mut handlers = main_and_overlay();
    assert!(handlers.auto_refresh_enabled());
    handlers.set_auto_refresh(1, false);
    assert!(!handlers.auto_refresh_enabled());
    handlers.set_auto_refresh(0, true);
    assert!(handlers.auto_refresh_enabled());
    assert_eq!(vec![0], handlers.announcement(RefreshRequest::Auto).to);
}

#[test]
fn removing_the_last_window_stops_the_analysis() {
    let mut handlers = main_and_overlay();
    assert_eq!(None, handlers.remove(5));
    assert_eq!(Some(false), handlers.remove(1));
    assert_eq!(Some(0), handlers.position(0));
    assert_eq!(Some(true), handlers.remove(0));
    assert_eq!(None, handlers.position(0));
}
