use oyo::dashboard::{
    dashboard_key, dashboard_mouse, DashboardAction, DashboardCommand, DashboardFilterAction,
};
use oyo::viewer::MouseKind;

#[test]
fn filter_keys_go_to_the_filter() {
    assert_eq!(
        dashboard_key(true, Some(DashboardAction::Quit), None, Some('q')),
        DashboardCommand::PushFilterChar { ch: 'q' }
    );
    assert_eq!(
        dashboard_key(true, None, Some(DashboardFilterAction::Cancel), None),
        DashboardCommand::StopFilter
    );
    assert_eq!(dashboard_key(true, None, Some(DashboardFilterAction::Accept), None), DashboardCommand::Open);
    assert_eq!(
        dashboard_key(true, None, Some(DashboardFilterAction::SelectPrev), None),
        DashboardCommand::Move { delta: -1 }
    );
    assert_eq!(dashboard_key(true, None, None, None), DashboardCommand::Nothing);
}

#[test]
fn list_keys_outside_the_filter() {
    assert_eq!(dashboard_key(false, Some(DashboardAction::Quit), None, Some('q')), DashboardCommand::Quit);
    assert_eq!(dashboard_key(false, Some(DashboardAction::TogglePin), None, None), DashboardCommand::TogglePin);
    assert_eq!(
        dashboard_key(false, Some(DashboardAction::SelectNext), None, None),
        DashboardCommand::Move { delta: 1 }
    );
    assert_eq!(dashboard_key(false, None, Some(DashboardFilterAction::Clear), Some('x')), DashboardCommand::Nothing);
}

#[test]
fn dashboard_mouse_scrolls_by_three_and_opens_on_second_click() {
    assert_eq!(dashboard_mouse(MouseKind::ScrollUp, false), DashboardCommand::Move { delta: -3 });
    assert_eq!(dashboard_mouse(MouseKind::ScrollDown, true), DashboardCommand::Move { delta: 3 });
    assert_eq!(dashboard_mouse(MouseKind::LeftDown, true), DashboardCommand::Nothing);
    assert_eq!(dashboard_mouse(MouseKind::LeftDown, false), DashboardCommand::Open);
    assert_eq!(dashboard_mouse(MouseKind::LeftUp, false), DashboardCommand::Nothing);
}
