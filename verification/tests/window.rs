use xpm::ui::{PackageData, StatsData, UiMessage};
use xpm::window::{update_selection_in_model, Window};

fn row(name: &str, backend: i32, installed: bool) -> PackageData {
    PackageData::plain(
        name.to_string(),
        name.to_string(),
        "1".to_string(),
        String::new(),
        String::new(),
        backend,
        installed,
        false,
    )
}

fn many(n: usize) -> Vec<PackageData> {
    (0..n).map(|i| row(&format!("p{}", i), 0, true)).collect()
}

fn stats(n: i32) -> StatsData {
    StatsData {
        pacman_count: n,
        flatpak_count: 0,
        orphan_count: 0,
        update_count: 0,
        cache_size: "0 B".to_string(),
    }
}

fn loaded(installed: Vec<PackageData>, flatpak: Vec<PackageData>) -> UiMessage {
    UiMessage::PackagesLoaded {
        installed,
        updates: vec![row("u", 0, true)],
        flatpak,
        firmware: vec![row("fw", 4, true)],
        stats: stats(3),
    }
}

fn names(v: &[PackageData]) -> Vec<&str> {
    v.iter().map(|p| p.name.as_str()).collect()
}

#[test]
fn loaded_packages_fill_the_lists() {
    let mut w = Window::new();
    w.handle(UiMessage::SetLoading(true));
    assert!(w.status.loading);
    let e = w.handle(loaded(many(120), vec![row("f", 1, false)]));
    assert!(!e.flush && !e.auto_close && e.refresh.is_none());
    assert_eq!(w.lists.full_installed.len(), 120);
    assert_eq!(w.lists.installed_packages.len(), 50);
    assert_eq!(w.lists.total_pages, 3);
    assert_eq!(w.lists.current_page, 0);
    assert_eq!(names(&w.lists.update_packages), vec!["u"]);
    assert_eq!(names(&w.lists.flatpak_packages), vec!["f"]);
    assert_eq!(w.lists.stats.pacman_count, 3);
    assert!(!w.status.loading);
    w.handle(loaded(Vec::new(), Vec::new()));
    assert_eq!(w.lists.total_pages, 1);
}

#[test]
fn pages_cover_the_list() {
    let mut w = Window::new();
    w.handle(loaded(many(120), Vec::new()));
    let mut all: Vec<String> = Vec::new();
    for page in 0..w.lists.total_pages {
        w.lists.load_page(0, page);
        assert!(w.lists.installed_packages.len() <= 50);
        all.extend(w.lists.installed_packages.iter().map(|p| p.name.clone()));
    }
    assert_eq!(all, names(&many(120)));
    w.lists.load_page(0, 3);
    assert!(w.lists.installed_packages.is_empty());
    w.lists.load_page(0, i32::MAX);
    assert!(w.lists.installed_packages.is_empty());
    w.handle(UiMessage::CategoryPackages(many(60)));
    w.lists.load_page(7, 1);
    assert_eq!(w.lists.category_packages.len(), 10);
    assert_eq!(w.lists.total_pages, 2);
    w.handle(UiMessage::RepoPackages(many(51)));
    w.lists.load_page(8, 1);
    assert_eq!(names(&w.lists.repo_packages), vec!["p50"]);
    w.lists.load_page(3, 0);
    assert_eq!(names(&w.lists.repo_packages), vec!["p50"]);
}

#[test]
fn open_details_follow_the_lists() {
    let mut w = Window::new();
    w.lists.detail_package = row("f", 1, false);
    w.handle(loaded(many(2), vec![row("f", 1, true)]));
    assert!(w.lists.detail_package.installed);
    w.lists.detail_package = row("gone", 0, true);
    w.handle(loaded(many(2), Vec::new()));
    assert_eq!(w.lists.detail_package.name, "gone");
    assert!(!w.lists.detail_package.installed);
    w.lists.detail_package = row("x", 0, false);
    w.handle(UiMessage::SearchResults(vec![row("x", 1, true)]));
    assert!(!w.lists.detail_package.installed);
    w.handle(UiMessage::SearchResults(vec![row("x", 0, true)]));
    assert!(w.lists.detail_package.installed);
}

#[test]
fn search_results_are_parted() {
    let mut w = Window::new();
    w.handle(UiMessage::SearchResults(vec![row("a", 0, true), row("b", 0, false), row("c", 1, true)]));
    assert_eq!(names(&w.lists.search_installed), vec!["a", "c"]);
    assert_eq!(names(&w.lists.search_available), vec!["b"]);
}

#[test]
fn the_status_is_set() {
    let mut w = Window::new();
    w.handle(UiMessage::SetBusy(true));
    w.handle(UiMessage::SetStatus("Working".to_string()));
    w.handle(UiMessage::SetProgress(40));
    w.handle(UiMessage::SetProgressText("Step".to_string()));
    assert!(w.status.busy);
    assert_eq!(w.status.message, "Working");
    assert_eq!(w.status.progress, 40);
    assert_eq!(w.status.progress_text, "Step");
}

#[test]
fn commands_run_in_the_terminal() {
    let mut w = Window::new();
    w.handle(UiMessage::ShowTerminal("Cleaning".to_string()));
    assert!(w.terminal.shown);
    w.handle(UiMessage::TerminalOutput("10%\r".to_string()));
    w.handle(UiMessage::TerminalOutput("20%\r\nnext".to_string()));
    assert!(!w.terminal.is_due(false, 149));
    assert!(w.terminal.is_due(false, 150));
    assert!(w.terminal.is_due(true, 0));
    assert!(w.terminal.is_flushable());
    w.terminal.flush();
    assert_eq!(w.terminal.output, "20%\nnext");
    assert!(!w.terminal.is_due(true, 1000));
    let e = w.handle(UiMessage::TerminalDone(false));
    assert!(e.flush && e.refresh.is_none());
    assert!(w.terminal.done && !w.terminal.success);
    w.search_text = "vim".to_string();
    let e = w.handle(UiMessage::TerminalDone(true));
    assert_eq!(e.refresh.unwrap().search.as_deref(), Some("vim"));
    w.handle(UiMessage::HideTerminal);
    assert!(!w.terminal.shown && !w.popup.shown);
}

#[test]
fn terminals_keep_the_end_of_long_output() {
    let mut w = Window::new();
    w.handle(UiMessage::ShowTerminal("Long".to_string()));
    let piece = UiMessage::TerminalOutput("x".repeat(70000));
    assert!(w.accepts(&piece));
    w.handle(piece);
    assert_eq!(w.terminal.pending.len(), 32768);
    w.terminal.flush();
    assert_eq!(w.terminal.output.len(), 16384);
    let odd = UiMessage::TerminalOutput(format!("{}{}", "ä".repeat(32768), "y"));
    assert!(!w.accepts(&odd));
    let even = UiMessage::TerminalOutput(format!("{}{}", "ä".repeat(32768), "yy"));
    assert!(w.accepts(&even));
}

#[test]
fn operations_run_in_the_popup() {
    let mut w = Window::new();
    w.handle(UiMessage::ShowTerminal("Old".to_string()));
    w.handle(UiMessage::ShowProgressPopup("Installing vim".to_string()));
    assert!(w.popup.shown && !w.terminal.shown);
    assert_eq!(w.popup.title, "Installing vim");
    assert_eq!(w.popup.stage, "Starting...");
    w.handle(UiMessage::OperationProgress(35, "downloading".to_string()));
    w.handle(UiMessage::ProgressOutput("log".to_string()));
    w.handle(UiMessage::ProgressPrompt("Sure?".to_string()));
    assert_eq!((w.popup.percent, w.popup.stage.as_str()), (35, "downloading"));
    assert_eq!(w.popup.output, "log");
    assert!(w.popup.show_input);
    w.handle(UiMessage::ProgressHidePrompt);
    assert!(!w.popup.show_input);
    assert_eq!(w.popup.prompt, "");
    w.view = 8;
    w.repo_name = "core".to_string();
    w.lists.selected_count = 2;
    let e = w.handle(UiMessage::OperationDone(false));
    assert!(w.popup.logs && w.popup.done && !w.popup.success);
    assert_eq!(w.popup.percent, 100);
    assert_eq!(w.lists.selected_count, 2);
    let refresh = e.refresh.unwrap();
    assert_eq!(refresh.repo.as_deref(), Some("core"));
    assert_eq!(refresh.search, None);
    assert!(!e.auto_close);
    let e = w.handle(UiMessage::OperationDone(true));
    assert!(e.auto_close && w.popup.success);
    assert_eq!(w.lists.selected_count, 0);
    w.popup.close(true);
    assert!(!w.popup.shown && !w.popup.logs);
}

#[test]
fn conflicts_move_the_popup_to_the_terminal() {
    let mut w = Window::new();
    w.handle(UiMessage::ShowProgressPopup("Installing vim".to_string()));
    let e = w.handle(UiMessage::ShowTerminalFallback("so far".to_string()));
    assert!(e.flush);
    assert!(w.terminal.shown && !w.popup.shown);
    assert_eq!(w.terminal.title, "Installing vim");
    w.terminal.flush();
    assert_eq!(w.terminal.output, "so far");
}

#[test]
fn packages_are_marked() {
    let mut w = Window::new();
    w.handle(loaded(vec![row("a", 0, true), row("b", 0, true)], vec![row("a", 1, false), row("c", 1, false)]));
    w.lists.toggle_package_selected("a", 0, true);
    w.lists.toggle_package_selected("a", 0, true);
    w.lists.toggle_package_selected("a", 1, true);
    w.lists.toggle_package_selected("c", 1, true);
    assert_eq!(w.lists.selected_count, 3);
    assert_eq!(w.lists.selected_installed_count, 1);
    assert_eq!(w.lists.selected_uninstalled_count, 2);
    assert!(w.lists.installed_packages[0].selected);
    assert!(!w.lists.installed_packages[1].selected);
    assert!(w.lists.flatpak_packages[0].selected);
    let job = w.lists.bulk_install().unwrap();
    assert_eq!(job.title, "Installing 2 packages");
    assert_eq!(job.program, "flatpak");
    assert_eq!(job.args, vec!["install", "-y", "a", "c"]);
    let job = w.lists.bulk_remove().unwrap();
    assert_eq!(job.title, "Removing 1 packages");
    assert_eq!(job.args, vec!["pacman", "-R", "a"]);
    w.lists.toggle_package_selected("a", 0, false);
    assert_eq!(w.lists.selected_count, 2);
    assert!(!w.lists.installed_packages[0].selected);
    assert!(w.lists.bulk_remove().is_none());
    w.lists.clear_selection();
    assert_eq!(w.lists.selected_count, 0);
    assert_eq!(w.lists.selected_uninstalled_count, 0);
    assert!(w.lists.flatpak_packages.iter().all(|p| !p.selected));
    assert!(w.lists.bulk_install().is_none());
}

#[test]
fn the_first_row_of_a_package_is_marked() {
    let mut v = vec![row("a", 1, true), row("a", 0, true), row("a", 0, false)];
    update_selection_in_model(&mut v, "a", 0, true);
    let marked: Vec<bool> = v.iter().map(|p| p.selected).collect();
    assert_eq!(marked, vec![false, true, false]);
    update_selection_in_model(&mut v, "b", 0, true);
    let marked: Vec<bool> = v.iter().map(|p| p.selected).collect();
    assert_eq!(marked, vec![false, true, false]);
    let mut w = Window::new();
    w.lists.update_packages = v;
    assert!(w.lists.find_package_installed("a", 0));
    assert!(!w.lists.find_package_installed("zzz", 0));
}

#[test]
fn a_package_file_can_be_opened() {
    let mut w = Window::new();
    w.open_local("/tmp/x", None);
    assert!(!w.local.shown);
    w.open_local("/tmp/a.pkg.tar.zst", Some(row("a", 2, false)));
    assert!(w.local.shown);
    assert_eq!(w.local.path, "/tmp/a.pkg.tar.zst");
    assert_eq!(w.view, 4);
    w.close_local(false);
    assert!(!w.local.shown);
    assert_eq!(w.view, 4);
    w.close_local(true);
    assert_eq!(w.view, 0);
}
