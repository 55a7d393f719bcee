use spellbook::action::Action;
use spellbook::application::Application;
use spellbook::config::{ApplicationListOrder, ColorMode, Config};
use spellbook::db::DbEntry;
use spellbook::icon::{application_icon, category_icon, resolve_icon, Icon, IconColor};
use spellbook::keybind::{Keybind, KeybindModifier, KeybindTrigger};
use spellbook::launcher::{
    parent_action, plan_launch, poll_decision, LaunchMethod, ParentAction, PollDecision,
    WaitOutcome,
};
use spellbook::widgets::{DebugState, InfoState};

fn app(name: &str, terminal: bool, args: &[&str]) -> Application {
    Application {
        name: name.to_string(),
        filename: name.to_lowercase(),
        args: args.iter().map(|a| a.to_string()).collect(),
        terminal,
        comment: None,
        icon: Icon::empty(),
        db_entry: DbEntry { name: name.to_string(), launch_count: 0, blacklisted: false },
    }
}

#[test]
fn terminal_program_replaces_the_chooser() {
    let plan = plan_launch(&app("Vim", true, &["file.txt"]), false);
    assert_eq!(plan.method, LaunchMethod::ExecReplace);
    assert_eq!(plan.executable, "vim");
    assert_eq!(plan.args, vec!["file.txt".to_string()]);
    assert!(!plan.keep_alive);
}

#[test]
fn graphical_program_is_detached() {
    let plan = plan_launch(&app("Firefox", false, &[]), true);
    assert_eq!(plan.method, LaunchMethod::DetachSpawn);
    assert!(plan.keep_alive);
}

#[test]
fn keep_alive_returns_to_loop_without_waiting() {
    assert_eq!(parent_action(true), ParentAction::ReturnToLoop);
    assert_eq!(parent_action(false), ParentAction::PollChild);
}

#[test]
fn poll_loop_decisions() {
    assert_eq!(poll_decision(WaitOutcome::Exited), PollDecision::RestoreAndExit);
    assert_eq!(
        poll_decision(WaitOutcome::StillRunning),
        PollDecision::SleepAndRetry { millis: 10 }
    );
    assert_eq!(poll_decision(WaitOutcome::WaitFailed), PollDecision::AbortAttempt);
}

#[test]
fn icon_tables_answer_exact_names() {
    let vim = application_icon("Vim").unwrap();
    assert_eq!(vim.color, IconColor::Green);
    assert!(application_icon("vim").is_none());
    assert!(application_icon("Unknown Application").is_none());
    let net = category_icon("Network").unwrap();
    assert_eq!(net.color, IconColor::Blue);
    assert!(category_icon("NotACategory").is_none());
}

#[test]
fn icon_resolution_prefers_exact_name() {
    let icon = resolve_icon("Vim", &vec!["Network".to_string()]);
    assert_eq!(icon.color, IconColor::Green);
    let icon = resolve_icon("NotInTable", &vec!["Nope".to_string(), "Game".to_string()]);
    assert_eq!(icon.color, IconColor::LightMagenta);
    let icon = resolve_icon("NotInTable", &Vec::new());
    assert_eq!(icon.symbol, " ");
    assert_eq!(icon.color, IconColor::White);
}

#[test]
fn config_defaults() {
    let config = Config::default();
    assert_eq!(config.color_mode, ColorMode::Dark);
    assert_eq!(config.application_list.order, ApplicationListOrder::MostUsed);
    assert!(!config.counter.enable);
    assert!(!config.info.enable);
    assert_eq!(config.margin.x, 0);
    assert_eq!(config.margin.y, 0);
}

#[test]
fn keybinds_hold_their_parts() {
    let plain = Keybind::new(KeybindTrigger::Esc);
    assert_eq!(plain.modifier, None);
    assert_eq!(plain.key, KeybindTrigger::Esc);
    let modded = Keybind::new_with_mod(KeybindModifier::Alt, KeybindTrigger::Enter);
    assert_eq!(modded.modifier, Some(KeybindModifier::Alt));
    assert_eq!(modded.key, KeybindTrigger::Enter);
}

#[test]
fn actions_are_distinct() {
    assert_ne!(Action::Launch, Action::LaunchKeepAlive);
    assert_ne!(Action::Noop, Action::Exit);
    assert_eq!(Action::EnterChar('a'), Action::EnterChar('a'));
    assert_ne!(Action::EnterChar('a'), Action::EnterChar('b'));
}

#[test]
fn widget_states_hold_messages() {
    let mut info = InfoState::default();
    assert!(info.message.is_none());
    info.update_message(Some("hello".to_string()));
    assert_eq!(info.message.as_deref(), Some("hello"));
    info.update_message(None);
    assert!(info.message.is_none());
    let mut debug = DebugState::default();
    debug.log("started".to_string());
    assert_eq!(debug.message, "started");
}
