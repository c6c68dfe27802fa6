use lucky_daemon::cli::{pager_action, PagerAction, PagerKey};

#[test]
fn pager_scrolls_by_lines() {
    assert_eq!(pager_action(PagerKey::Up), PagerAction::ScrollLines(-1));
    assert_eq!(pager_action(PagerKey::Char('k')), PagerAction::ScrollLines(-1));
    assert_eq!(pager_action(PagerKey::Down), PagerAction::ScrollLines(1));
    assert_eq!(pager_action(PagerKey::Char('j')), PagerAction::ScrollLines(1));
}

#[test]
fn pager_scrolls_by_pages() {
    assert_eq!(pager_action(PagerKey::PageUp), PagerAction::ScrollPages(-1));
    assert_eq!(pager_action(PagerKey::PageDown), PagerAction::ScrollPages(1));
}

#[test]
fn pager_goes_to_either_end() {
    assert_eq!(pager_action(PagerKey::Home), PagerAction::ScrollToTop);
    assert_eq!(pager_action(PagerKey::Char('g')), PagerAction::ScrollToTop);
    assert_eq!(pager_action(PagerKey::End), PagerAction::ScrollToEnd);
    assert_eq!(pager_action(PagerKey::Char('G')), PagerAction::ScrollToEnd);
}

#[test]
fn pager_leaves_on_esc_enter_and_q() {
    assert_eq!(pager_action(PagerKey::Esc), PagerAction::Quit);
    assert_eq!(pager_action(PagerKey::Enter), PagerAction::Quit);
    assert_eq!(pager_action(PagerKey::Char('q')), PagerAction::Quit);
}

#[test]
fn pager_ignores_other_keys() {
    assert_eq!(pager_action(PagerKey::Other), PagerAction::Stay);
    for c in ['Q', 'J', 'K', 'x', ' ', '0', 'é'] {
        assert_eq!(pager_action(PagerKey::Char(c)), PagerAction::Stay);
    }
}
