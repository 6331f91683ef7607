use hydroxyl::domain::files::source::DocumentSource;
use hydroxyl::domain::json::value::{JsonNumber, JsonValue};
use hydroxyl::domain::minecraft::stats::StatsFile;
use hydroxyl::domain::nbt::value::NbtValue;
use hydroxyl::persistence::nbt_codec::{CompressionKind, NbtFile};
use hydroxyl::services::document::{DocumentService, LoadedFile};
use hydroxyl::services::nbt::NbtService;
use hydroxyl::services::save::{SaveFormat, SaveService};
use hydroxyl::services::stats::StatsService;
use hydroxyl::session::action::Action;
use hydroxyl::session::context::{AppContext, LaunchConfig, OpenTarget};
use hydroxyl::session::document::Document;
use hydroxyl::session::message::Message;
use hydroxyl::session::router::{action_from_key, KeyCode, KeyEvent};
use hydroxyl::session::state::{build_state, AppState};
use hydroxyl::session::tab::{DocumentId, TabKind};
use hydroxyl::util::error::HydroxylError;
use hydroxyl::util::fs::FilePath;

fn key(code: KeyCode) -> KeyEvent {
    KeyEvent { code, control: false }
}

#[test]
fn keys_map_to_actions() {
    assert_eq!(action_from_key(key(KeyCode::Char('q')), false), Action::RequestQuit);
    assert_eq!(action_from_key(key(KeyCode::Char('q')), true), Action::InputChar('q'));
    assert_eq!(action_from_key(KeyEvent { code: KeyCode::Char('c'), control: true }, false), Action::RequestQuit);
    assert_eq!(action_from_key(KeyEvent { code: KeyCode::Char('w'), control: true }, false), Action::CloseActiveTab);
    assert_eq!(action_from_key(key(KeyCode::Enter), false), Action::StartEdit);
    assert_eq!(action_from_key(key(KeyCode::Enter), true), Action::ConfirmEdit);
    assert_eq!(action_from_key(key(KeyCode::Esc), true), Action::CancelEdit);
    assert_eq!(action_from_key(key(KeyCode::Char('h')), false), Action::MoveLeft);
    assert_eq!(action_from_key(key(KeyCode::Down), false), Action::MoveDown);
    assert_eq!(action_from_key(key(KeyCode::BackTab), false), Action::PreviousTab);
    assert_eq!(action_from_key(key(KeyCode::Char(']')), false), Action::NextTab);
    assert_eq!(action_from_key(key(KeyCode::Other), false), Action::Noop);
    assert_eq!(action_from_key(key(KeyCode::Tab), true), Action::Noop);
}

#[test]
fn only_the_four_newest_messages_are_kept() {
    let mut state = AppState::new(AppContext::new(LaunchConfig::default()));
    for text in ["a", "b", "c", "d", "e"] {
        state.push_message(Message::info(text));
    }
    let texts: Vec<&str> = state.messages.iter().map(|m| m.text.as_str()).collect();
    assert_eq!(texts, vec!["e", "d", "c", "b"]);
    assert_eq!(state.current_path_label(), "No document");
}

#[test]
fn home_tabs_get_fresh_identifiers() {
    let mut docs = DocumentService::new();
    let (d1, t1) = docs.create_home_tab();
    let (d2, t2) = docs.create_home_tab();
    assert_eq!(d1.id(), DocumentId(0));
    assert_eq!(d2.id(), DocumentId(1));
    assert_ne!(t1.id, t2.id);
    assert_eq!(d1.title(), "Home");
    assert_eq!(t2.kind, TabKind::Home(DocumentId(1)));
}

#[test]
fn opening_paths_by_kind() {
    let mut docs = DocumentService::new();
    let nbt = LoadedFile::Nbt(NbtFile { root: NbtValue::Int(3), compression: CompressionKind::Raw });
    let (doc, tab) = docs
        .open_path(&FilePath::from_text("dir/level.nbt"), DocumentSource::Direct, None, Ok(nbt))
        .unwrap();
    assert_eq!(doc.id(), DocumentId(0));
    assert_eq!(tab.title, "level.nbt");
    assert_eq!(tab.kind, TabKind::Nbt(DocumentId(0)));

    let err = docs
        .open_path(&FilePath::from_text("dir/x.txt"), DocumentSource::Direct, None, Ok(LoadedFile::Unknown))
        .unwrap_err();
    assert_eq!(err, HydroxylError::InvalidData("unsupported file type: dir/x.txt".to_owned()));

    let failed = docs.open_path(
        &FilePath::from_text("dir/y.nbt"),
        DocumentSource::Direct,
        None,
        Err(HydroxylError::Io("gone".to_owned())),
    );
    assert_eq!(failed.unwrap_err(), HydroxylError::Io("gone".to_owned()));

    let stats = LoadedFile::Stats(JsonValue::Object(vec![]), StatsFile::default());
    let (doc, _) = docs.open_path(&FilePath::from_text("s/x.json"), DocumentSource::Direct, None, Ok(stats)).unwrap();
    assert_eq!(doc.id(), DocumentId(3));
}

#[test]
fn launching_home_opens_one_tab() {
    let mut docs = DocumentService::new();
    let opened = docs.open_initial(&OpenTarget::Home, None, Ok(LoadedFile::Unknown)).unwrap();
    assert_eq!(opened.len(), 1);
    let state = build_state(AppContext::new(LaunchConfig::default())).unwrap();
    assert!(state.documents.is_empty());
}

#[test]
fn tab_titles_mark_unsaved_documents() {
    let mut docs = DocumentService::new();
    let mut state = AppState::new(AppContext::new(LaunchConfig::default()));
    let (mut doc, tab) = docs
        .open_path(
            &FilePath::from_text("a/b.nbt"),
            DocumentSource::Direct,
            None,
            Ok(LoadedFile::Nbt(NbtFile { root: NbtValue::Int(1), compression: CompressionKind::Raw })),
        )
        .unwrap();
    doc.meta_mut().dirty.mark_dirty();
    state.documents.push(doc);
    state.tabs.push(tab);
    assert_eq!(state.tab_titles(), vec!["b.nbt*".to_owned()]);
    assert_eq!(state.current_path_label(), "b.nbt");
    assert!(state.active_document().is_some());
}

#[test]
fn saving_clears_the_unsaved_mark() {
    let mut doc = Document::Nbt(NbtService.open(
        DocumentId(0),
        &FilePath::from_text("x.nbt"),
        DocumentSource::Direct,
        NbtFile { root: NbtValue::Int(1), compression: CompressionKind::Raw },
    ));
    doc.meta_mut().dirty.mark_dirty();
    assert_eq!(SaveService.format(&doc), SaveFormat::Nbt);
    let err = SaveService.save(&mut doc, Err(HydroxylError::Io("disk full".to_owned()))).unwrap_err();
    assert_eq!(err, HydroxylError::Io("disk full".to_owned()));
    assert!(doc.is_dirty());
    SaveService.save(&mut doc, Ok(())).unwrap();
    assert!(!doc.is_dirty());
}

#[test]
fn nbt_documents_edit_the_selected_row() {
    let mut doc = NbtService.open(
        DocumentId(0),
        &FilePath::from_text("x.nbt"),
        DocumentSource::Direct,
        NbtFile {
            root: NbtValue::Compound(vec![("n".to_owned(), NbtValue::Long(1))]),
            compression: CompressionKind::Raw,
        },
    );
    doc.selected = 1;
    NbtService.edit_scalar(&mut doc, "-9", None, None).unwrap();
    assert_eq!(doc.root, NbtValue::Compound(vec![("n".to_owned(), NbtValue::Long(-9))]));
    assert!(doc.meta.dirty.is_dirty());
    doc.selected = 7;
    NbtService.refresh(&mut doc);
    assert_eq!(doc.selected, 1);
}

#[test]
fn stats_documents_edit_the_selected_row() {
    let root = JsonValue::Object(vec![("k".to_owned(), JsonValue::Number(JsonNumber::PosInt(1)))]);
    let mut doc = StatsService.open(DocumentId(0), &FilePath::from_text("s.json"), DocumentSource::Direct, root, StatsFile::default());
    doc.selected = 1;
    assert!(StatsService.edit_selected(&mut doc, "2", None));
    assert_eq!(doc.root, JsonValue::Object(vec![("k".to_owned(), JsonValue::Number(JsonNumber::PosInt(2)))]));
    doc.selected = 0;
    assert!(!StatsService.edit_selected(&mut doc, "2", None));
}
