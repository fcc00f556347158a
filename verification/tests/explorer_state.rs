use std::collections::HashMap;

use lib::explorer::{InstructionKind, IrElement, UiIrInstruction, UiValue, UiVariable};
use lib::explorer_state::{CompilerExplorer, LoadedProject, Message, Scroll};
use lib::listing::ObjectDetails;

fn row(line: Option<usize>, text: &str) -> UiIrInstruction {
    UiIrInstruction {
        elements: vec![IrElement::Text(text.to_string())],
        source_line_index: line,
        block_idx: 0,
        description: "Load a constant value".to_string(),
        kind: InstructionKind::Normal,
    }
}

fn details(lines: &[&str], rows: Vec<UiIrInstruction>, color: usize) -> ObjectDetails {
    ObjectDetails {
        source_lines: lines.iter().map(|l| l.to_string()).collect(),
        ir_variables: vec![UiVariable { id: 0, identifier: "x".to_string(), ty: "i32".to_string() }],
        ir_values: vec![UiValue { id: 1, ty: "i32".to_string() }],
        ir_instructions: rows,
        color_index: color,
    }
}

fn project() -> LoadedProject {
    LoadedProject {
        modules: vec![],
        details: vec![
            ("main::first".to_string(), details(&["a", "b"], vec![row(Some(1), "one"), row(None, "two")], 0)),
            (
                "main::second".to_string(),
                details(&["c", "d", "e", "f", "g", "h"], vec![row(Some(5), "p"), row(Some(4), "q"), row(Some(5), "r")], 1),
            ),
            ("main::empty".to_string(), details(&[], vec![row(None, "s")], 2)),
        ],
        function_map: HashMap::new(),
    }
}

fn texts(e: &CompilerExplorer) -> Vec<String> {
    e.ir_instructions.iter().map(|r| r.elements[0].stringify()).collect()
}

#[test]
fn explorer_starts_on_the_first_function() {
    let (e, scroll) = CompilerExplorer::new(Some(project()));
    assert_eq!(e.source_lines, vec!["a".to_string(), "b".to_string()]);
    assert_eq!(texts(&e), vec!["one".to_string(), "two".to_string()]);
    assert_eq!(e.active_lines, HashMap::from([(1, 0)]));
    assert_eq!(e.active_color_index, 0);
    assert_eq!(e.current_target, Some("main::first".to_string()));
    // two lines above the first line shown, but not above the top
    assert_eq!(scroll, Scroll::SourceLine(0));
    assert!(!e.variables_expanded && !e.values_expanded);
    assert!(e.collapsed_modules.is_empty() && e.expanded_polymorphs.is_empty() && e.nav_history.is_empty());
    assert_eq!(e.hovered_source_line, None);
    let (empty, scroll) = CompilerExplorer::new(None);
    assert!(empty.source_lines.is_empty() && empty.ir_instructions.is_empty() && empty.active_lines.is_empty());
    assert_eq!(empty.current_target, None);
    assert_eq!(scroll, Scroll::Nowhere);
}

#[test]
fn navigating_shows_a_function_and_remembers_the_way_back() {
    let (mut e, _) = CompilerExplorer::new(Some(project()));
    let scroll = e.update(Message::NavigateTo("main::second".to_string()));
    assert_eq!(texts(&e), vec!["p".to_string(), "q".to_string(), "r".to_string()]);
    // lines are coloured in the order they first occur
    assert_eq!(e.active_lines, HashMap::from([(5, 0), (4, 1)]));
    assert_eq!(e.active_color_index, 1);
    assert_eq!(scroll, Scroll::SourceLine(2));
    assert_eq!(e.nav_history, vec!["main::first".to_string()]);
    // a function with no source lines scrolls nowhere
    assert_eq!(e.update(Message::NavigateTo("main::empty".to_string())), Scroll::Nowhere);
    assert_eq!(e.nav_history, vec!["main::first".to_string(), "main::second".to_string()]);
    // an unknown function changes nothing
    assert_eq!(e.update(Message::NavigateTo("main::third".to_string())), Scroll::Nowhere);
    assert_eq!(e.current_target, Some("main::empty".to_string()));
    assert_eq!(e.nav_history.len(), 2);
    // going back takes the last function off the way back
    assert_eq!(e.update(Message::NavigateBack), Scroll::SourceLine(2));
    assert_eq!(e.current_target, Some("main::second".to_string()));
    assert_eq!(e.nav_history, vec!["main::first".to_string()]);
    // the function left is not noted twice in a row
    e.update(Message::NavigateTo("main::first".to_string()));
    assert_eq!(e.nav_history, vec!["main::first".to_string(), "main::second".to_string()]);
    e.update(Message::NavigateBack);
    e.update(Message::NavigateBack);
    assert_eq!(e.current_target, Some("main::first".to_string()));
    assert!(e.nav_history.is_empty());
    assert_eq!(e.update(Message::NavigateBack), Scroll::Nowhere);
    assert_eq!(e.current_target, Some("main::first".to_string()));
}

#[test]
fn going_back_to_a_missing_function_only_forgets_it() {
    let (mut e, _) = CompilerExplorer::new(Some(project()));
    e.nav_history.push("main::gone".to_string());
    assert_eq!(e.update(Message::NavigateBack), Scroll::Nowhere);
    assert!(e.nav_history.is_empty());
    assert_eq!(e.current_target, Some("main::first".to_string()));
}

#[test]
fn clicks_scroll_the_views() {
    let (mut e, _) = CompilerExplorer::new(Some(project()));
    e.update(Message::NavigateTo("main::second".to_string()));
    assert_eq!(e.update(Message::ClickInstruction(Some(7))), Scroll::SourceLine(5));
    assert_eq!(e.update(Message::ClickInstruction(Some(1))), Scroll::SourceLine(0));
    assert_eq!(e.update(Message::ClickInstruction(None)), Scroll::Nowhere);
    // the first row from line 4 is the second row
    assert_eq!(e.update(Message::ClickSourceLine(4)), Scroll::IrRow(0));
    assert_eq!(e.update(Message::ClickSourceLine(5)), Scroll::IrRow(0));
    assert_eq!(e.update(Message::ClickSourceLine(9)), Scroll::Nowhere);
}

#[test]
fn toggles_fold_open_and_point() {
    let (mut e, _) = CompilerExplorer::new(Some(project()));
    e.update(Message::ToggleModule(4));
    e.update(Message::ToggleModule(2));
    assert!(e.collapsed_modules.contains(&4) && e.collapsed_modules.contains(&2));
    e.update(Message::ToggleModule(4));
    assert!(!e.collapsed_modules.contains(&4) && e.collapsed_modules.contains(&2));
    e.update(Message::TogglePolymorphic("main::id".to_string()));
    e.update(Message::TogglePolymorphic("main::map".to_string()));
    e.update(Message::TogglePolymorphic("main::id".to_string()));
    assert_eq!(e.expanded_polymorphs, vec!["main::map".to_string()]);
    e.update(Message::ToggleVariables);
    assert!(e.variables_expanded && !e.values_expanded);
    e.update(Message::ToggleValues);
    e.update(Message::ToggleVariables);
    assert!(!e.variables_expanded && e.values_expanded);
    e.update(Message::HoverSourceLine(Some(7)));
    assert_eq!(e.hovered_source_line, Some(7));
    e.update(Message::HoverElement(Some(IrElement::Value { id: 3 })));
    // bare text and operators are not noted
    e.update(Message::HoverElement(Some(IrElement::Text("x".to_string()))));
    e.update(Message::HoverElement(Some(IrElement::Operator("+".to_string()))));
    assert_eq!(e.hovered_element, Some(IrElement::Value { id: 3 }));
    e.update(Message::HoverElement(None));
    assert_eq!(e.hovered_element, None);
    assert_eq!(e.source_lines.len(), 2);
}
