use rtf_displayer::document::{LoadError, StyledRun};
use rtf_displayer::layout::GlyphPlacement;
use rtf_parser::{Painter, RtfDocument};
use rtf_displayer::viewer::{
    Action, Displayer, DisplayerEvent, DrawOp, InputEvent, Key, SendError, DEFAULT_FONT_SIZE,
};

fn at(line: usize, x: u64, width: u32, fragment: usize) -> GlyphPlacement {
    GlyphPlacement { line, x, width, fragment }
}

#[test]
fn new_displayer_is_unbound_and_empty() {
    let d = Displayer::new();
    assert!(!d.sender_bound);
    assert!(d.document.runs.is_empty());
    assert_eq!(d.font_size, DEFAULT_FONT_SIZE);
    assert_eq!(d.font_size, 24);
    assert!(d.layout_text().is_empty());
}

#[test]
fn sending_before_start_is_an_error() {
    let mut d = Displayer::new();
    assert_eq!(d.send_event(DisplayerEvent::Render), Err(SendError::Unbound));
    assert_eq!(d.handle_event(InputEvent::Start), Action::RequestRedraw);
    assert_eq!(d.send_event(DisplayerEvent::Render), Ok(DisplayerEvent::Render));
}

#[test]
fn empty_document_renders_only_a_clear() {
    let d = Displayer::new();
    assert_eq!(d.render(&vec![]), vec![DrawOp::Clear]);
}

#[test]
fn render_moves_placements_by_camera() {
    let mut d = Displayer::new();
    d.camera.lock_x = false;
    d.handle_event(InputEvent::WheelPixels { dx: -5, dy: -7 });
    let ops = d.render(&vec![at(0, 0, 10, 0), at(2, 13, 12, 1)]);
    assert_eq!(
        ops,
        vec![
            DrawOp::Clear,
            DrawOp::Text { fragment: 0, x: -5, y: -7 },
            DrawOp::Text { fragment: 1, x: 8, y: 2 * 24 - 7 },
        ]
    );
}

#[test]
fn events_drive_camera_and_redraws() {
    let mut d = Displayer::new();
    assert_eq!(d.handle_event(InputEvent::User(DisplayerEvent::Update)), Action::Nothing);
    assert_eq!(d.handle_event(InputEvent::User(DisplayerEvent::Render)), Action::RequestRedraw);
    assert_eq!(d.handle_event(InputEvent::WheelPixels { dx: -5, dy: -5 }), Action::Nothing);
    assert_eq!((d.camera.offset_x, d.camera.offset_y), (0, -5));
    assert_eq!(d.handle_event(InputEvent::KeyUp(Some(Key::Other))), Action::RequestRedraw);
    assert_eq!(d.camera.offset_y, -5);
    assert_eq!(d.handle_event(InputEvent::KeyUp(Some(Key::R))), Action::RequestRedraw);
    assert_eq!((d.camera.offset_x, d.camera.offset_y), (0, 0));
    assert_eq!(d.handle_event(InputEvent::KeyUp(None)), Action::Nothing);
    assert_eq!(d.handle_event(InputEvent::MouseMove), Action::RequestRedraw);
    assert_eq!(d.handle_event(InputEvent::WheelOther), Action::Nothing);
    assert_eq!(d.handle_event(InputEvent::MouseButton), Action::Nothing);
    assert_eq!(d.handle_event(InputEvent::Resize), Action::Nothing);
}

fn parsed(rtf: &str) -> Option<Vec<StyledRun>> {
    let doc = RtfDocument::try_from(rtf).ok()?;
    Some(doc.body.into_iter().map(|b| StyledRun { text: b.text, style: b.painter }).collect())
}

const SAMPLE: &str =
    r#"{ \rtf1\ansi{\fonttbl\f0\fswiss Helvetica;}\f0\pard Voici du texte en {\b gras}.\par }"#;

#[test]
fn load_parsed_replaces_document_or_keeps_it() {
    let mut d = Displayer::new();
    assert_eq!(d.load_parsed(parsed(SAMPLE)), Ok(()));
    let texts: Vec<&str> = d.document.runs.iter().map(|r| r.text.as_str()).collect();
    assert_eq!(texts, vec!["Voici du texte en ", "gras", "."]);
    assert!(d.document.runs[1].style.bold);
    assert!(!d.document.runs[0].style.bold);
    assert_eq!(d.load_parsed(parsed("not a document")), Err(LoadError::Parse));
    assert_eq!(d.document.runs.len(), 3);
}

#[test]
fn load_parsed_keeps_runs_exactly() {
    let mut d = Displayer::new();
    let runs = vec![
        StyledRun { text: "a\r\nb".to_string(), style: Painter { italic: true, ..Painter::default() } },
        StyledRun { text: String::new(), style: Painter::default() },
    ];
    assert_eq!(d.load_parsed(Some(runs)), Ok(()));
    assert_eq!(d.document.runs.len(), 2);
    assert_eq!(d.document.runs[0].text, "a\r\nb");
    assert!(d.document.runs[0].style.italic);
    assert_eq!(d.layout_text().len(), 3);
}

#[test]
fn negative_ignore_count_without_unicode_loads() {
    let mut d = Displayer::new();
    assert_eq!(d.load_parsed(parsed(r"{\rtf1 \uc-1 Hello}")), Ok(()));
    let text: String = d.document.runs.iter().map(|r| r.text.as_str()).collect();
    assert!(text.contains("Hello"));
}

#[test]
fn successful_load_asks_for_a_render() {
    let rtf = SAMPLE;
    let mut d = Displayer::new();
    assert_eq!(d.load_and_notify(parsed(rtf)), Ok(Err(SendError::Unbound)));
    d.handle_event(InputEvent::Start);
    assert_eq!(d.load_and_notify(parsed(rtf)), Ok(Ok(DisplayerEvent::Render)));
    assert_eq!(d.document.runs.len(), 3);
    assert_eq!(d.load_and_notify(None), Err(LoadError::Parse));
    assert_eq!(d.document.runs.len(), 3);
}
