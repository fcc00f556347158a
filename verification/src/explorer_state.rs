//! The state of the compiler explorer and how it answers what the user
//! does: which modules and polymorphic functions are folded, which
//! function is shown and the way back to those shown before, what the
//! pointer is on, which sections are open, and where the views scroll to.

use crate::explorer::{
    IrElement, UiIrInstruction, UiModule, UiValue, UiVariable, build_line_colors, lemma_line_colors_distinct,
    line_colors, source_lines,
};
use crate::listing::ObjectDetails;
use crate::names::named;
use std::collections::{HashMap, HashSet};
use vstd::prelude::*;

verus! {

broadcast use vstd::std_specs::hash::group_hash_axioms;

/// A loaded project: its modules, the details of each lowered function
/// under its name (`module::function`, with the type arguments of an
/// instantiation), and the name of each function by its key.
#[derive(Debug)]
pub struct LoadedProject {
    pub modules: Vec<UiModule>,
    pub details: Vec<(String, ObjectDetails)>,
    pub function_map: HashMap<usize, String>,
}

/// The explorer: the project, what it shows of the selected function and
/// which function that is, the functions shown before it, which sections
/// are open, what the pointer is on, which modules are folded and which
/// polymorphic functions unfolded.
#[derive(Debug)]
pub struct CompilerExplorer {
    pub project: Option<LoadedProject>,
    pub source_lines: Vec<String>,
    pub ir_variables: Vec<UiVariable>,
    pub ir_values: Vec<UiValue>,
    pub ir_instructions: Vec<UiIrInstruction>,
    pub variables_expanded: bool,
    pub values_expanded: bool,
    pub active_lines: HashMap<usize, usize>,
    pub active_color_index: usize,
    pub hovered_source_line: Option<usize>,
    pub hovered_element: Option<IrElement>,
    pub nav_history: Vec<String>,
    pub current_target: Option<String>,
    pub collapsed_modules: HashSet<usize>,
    pub expanded_polymorphs: Vec<String>,
}

/// What the user does in the explorer.
#[derive(Debug, Clone)]
pub enum Message {
    ToggleModule(usize),
    TogglePolymorphic(String),
    NavigateTo(String),
    NavigateBack,
    ClickInstruction(Option<usize>),
    ClickSourceLine(usize),
    HoverSourceLine(Option<usize>),
    HoverElement(Option<IrElement>),
    ToggleVariables,
    ToggleValues,
}

/// Where a view scrolls to after a message: nowhere, the source view to
/// put a line at its top, or the listing to put a row at its top.
#[derive(Debug, Clone, Copy, PartialEq, Eq, Structural)]
pub enum Scroll {
    Nowhere,
    SourceLine(usize),
    IrRow(usize),
}

/// Two listings with the same rows.
pub open spec fn same_rows(a: Seq<UiIrInstruction>, b: Seq<UiIrInstruction>) -> bool {
    &&& a.len() == b.len()
    &&& forall|i: int|
        0 <= i < a.len() ==> (#[trigger] a[i]).elements@ == b[i].elements@ && a[i].source_line_index
            == b[i].source_line_index && a[i].block_idx == b[i].block_idx && a[i].description == b[i].description
            && a[i].kind == b[i].kind
}

/// The explorer shows the details `d`: its lines, variables, values and
/// rows, the colours of the rows' source lines, and its colour.
pub open spec fn shows(e: CompilerExplorer, d: ObjectDetails) -> bool {
    &&& e.source_lines@ == d.source_lines@
    &&& e.ir_variables@ == d.ir_variables@
    &&& e.ir_values@ == d.ir_values@
    &&& same_rows(e.ir_instructions@, d.ir_instructions@)
    &&& e.active_lines@ == line_colors(source_lines(d.ir_instructions@))
    &&& e.active_color_index == d.color_index
}

/// Every function of the project has fewer rows than the largest index.
pub open spec fn listings_fit(project: Option<LoadedProject>) -> bool {
    match project {
        Some(p) => forall|i: int| 0 <= i < p.details@.len() ==> (#[trigger] p.details@[i]).1.ir_instructions@.len() < usize::MAX,
        None => true,
    }
}

/// The names in `v`.
pub open spec fn name_set(v: Seq<String>) -> Set<Seq<char>> {
    Set::new(|n: Seq<char>| exists|i: int| 0 <= i < v.len() && (#[trigger] v[i])@ == n)
}

/// No name occurs twice in `v`.
pub open spec fn distinct_strings(v: Seq<String>) -> bool {
    forall|i: int, j: int| 0 <= i < j < v.len() ==> (#[trigger] v[i])@ != (#[trigger] v[j])@
}

impl CompilerExplorer {
    /// Every listing fits, and no polymorphic function is noted twice as
    /// unfolded.
    pub open spec fn wf(self) -> bool {
        &&& listings_fit(self.project)
        &&& distinct_strings(self.expanded_polymorphs@)
    }
}

/// After `NavigateTo(target)`: the function `target` shown, with the
/// function left added to the way back (see `history_after`), if the
/// project has its details; nothing changed otherwise.
pub open spec fn went_to(new: CompilerExplorer, old: CompilerExplorer, target: String, scroll: Scroll) -> bool {
    match old.project {
        Some(p) => match named(p.details@, target@) {
            Some(d) => {
                &&& navigated(new, old, d, target, history_after(old.nav_history@, old.current_target))
                &&& scroll == scroll_for(d.ir_instructions@)
            },
            None => new == old && scroll == Scroll::Nowhere,
        },
        None => new == old && scroll == Scroll::Nowhere,
    }
}

/// Only the way back changed: it is `back`.
pub open spec fn history_dropped(new: CompilerExplorer, old: CompilerExplorer, back: Seq<String>) -> bool {
    &&& new.nav_history@ == back
    &&& new.current_target == old.current_target
    &&& new.project == old.project
    &&& new.source_lines == old.source_lines
    &&& new.ir_variables == old.ir_variables
    &&& new.ir_values == old.ir_values
    &&& new.ir_instructions == old.ir_instructions
    &&& new.active_lines == old.active_lines
    &&& new.active_color_index == old.active_color_index
    &&& same_settings(new, old)
}

/// After `NavigateBack`: nothing changed if the way back is empty;
/// otherwise its last function is taken off it and shown, if the project
/// has its details.
pub open spec fn went_back(new: CompilerExplorer, old: CompilerExplorer, scroll: Scroll) -> bool {
    if old.nav_history@.len() == 0 {
        new == old && scroll == Scroll::Nowhere
    } else {
        let prev = old.nav_history@.last();
        let back = old.nav_history@.drop_last();
        match old.project {
            Some(p) => match named(p.details@, prev@) {
                Some(d) => {
                    &&& navigated(new, old, d, prev, back)
                    &&& scroll == scroll_for(d.ir_instructions@)
                },
                None => history_dropped(new, old, back) && scroll == Scroll::Nowhere,
            },
            None => history_dropped(new, old, back) && scroll == Scroll::Nowhere,
        }
    }
}

/// Going to a function the project has and then back returns to where the
/// explorer was: the function shown before is shown again, with the same
/// way back and the same settings (when the function left is not already
/// last on the way back, and the project has its details).
pub proof fn lemma_navigate_round_trip(
    e0: CompilerExplorer,
    e1: CompilerExplorer,
    e2: CompilerExplorer,
    target: String,
    s1: Scroll,
    s2: Scroll,
)
    requires
        e0.project is Some,
        named(e0.project->Some_0.details@, target@) is Some,
        e0.current_target is Some,
        named(e0.project->Some_0.details@, (e0.current_target->Some_0)@) is Some,
        !(e0.nav_history@.len() > 0 && e0.nav_history@.last()@ == (e0.current_target->Some_0)@),
        went_to(e1, e0, target, s1),
        went_back(e2, e1, s2),
    ensures
        e2.current_target == e0.current_target,
        e2.nav_history@ == e0.nav_history@,
        e2.project == e0.project,
        shows(e2, named(e0.project->Some_0.details@, (e0.current_target->Some_0)@)->Some_0),
        same_settings(e2, e0),
{
    let c = e0.current_target->Some_0;
    assert(e1.nav_history@ == e0.nav_history@.push(c));
    assert(e1.nav_history@.last() == c);
    assert(e1.nav_history@.drop_last() =~= e0.nav_history@);
}

/// The least source line among `lines`, if any.
pub open spec fn least_line(lines: Seq<Option<usize>>) -> Option<usize>
    decreases lines.len(),
{
    if lines.len() == 0 {
        None
    } else {
        let rest = least_line(lines.drop_last());
        match lines.last() {
            Some(l) => match rest {
                Some(m) => Some(if l < m { l } else { m }),
                None => Some(l),
            },
            None => rest,
        }
    }
}

/// The least source line is the least line that has a colour.
pub proof fn lemma_least_line(lines: Seq<Option<usize>>)
    requires
        lines.len() <= usize::MAX,
    ensures
        match least_line(lines) {
            Some(l) => line_colors(lines).contains_key(l) && forall|k: usize|
                #[trigger] line_colors(lines).contains_key(k) ==> l <= k,
            None => line_colors(lines).dom() == Set::<usize>::empty(),
        },
    decreases lines.len(),
{
    lemma_line_colors_distinct(lines);
    if lines.len() > 0 {
        let init = lines.drop_last();
        lemma_least_line(init);
        lemma_line_colors_distinct(init);
        assert forall|k: usize| #[trigger] line_colors(lines).contains_key(k) implies line_colors(init).contains_key(k)
            || lines.last() == Some(k) by {
            assert(lines.contains(Some(k)));
            let j = choose|j: int| 0 <= j < lines.len() && lines[j] == Some(k);
            if j < lines.len() - 1 {
                assert(init[j] == Some(k));
                assert(init.contains(Some(k)));
            }
        }
        assert forall|k: usize| #[trigger] line_colors(init).contains_key(k) implies line_colors(lines).contains_key(k) by {
            assert(init.contains(Some(k)));
            let j = choose|j: int| 0 <= j < init.len() && init[j] == Some(k);
            assert(lines[j] == Some(k));
        }
        if let Some(l) = lines.last() {
            assert(lines[lines.len() - 1] == Some(l));
            assert(lines.contains(Some(l)));
        }
    }
    if least_line(lines) is None {
        assert(line_colors(lines).dom() =~= Set::<usize>::empty());
    }
}

/// Where the source view scrolls when the rows `rows` are shown: to two
/// lines above the least source line they come from, if they come from
/// any.
pub open spec fn scroll_for(rows: Seq<UiIrInstruction>) -> Scroll {
    match least_line(source_lines(rows)) {
        Some(l) => Scroll::SourceLine(if l >= 2 { (l - 2) as usize } else { 0 }),
        None => Scroll::Nowhere,
    }
}

/// The index of the first row from index `i` on that comes from source
/// line `line`, if any.
pub open spec fn first_row_of(rows: Seq<UiIrInstruction>, line: usize, i: nat) -> Option<nat>
    decreases rows.len() - i,
{
    if i >= rows.len() {
        None
    } else if rows[i as int].source_line_index == Some(line) {
        Some(i)
    } else {
        first_row_of(rows, line, i + 1)
    }
}

/// The same settings: open sections, what the pointer is on, folded
/// modules and unfolded polymorphic functions.
pub open spec fn same_settings(a: CompilerExplorer, b: CompilerExplorer) -> bool {
    &&& a.variables_expanded == b.variables_expanded
    &&& a.values_expanded == b.values_expanded
    &&& a.hovered_source_line == b.hovered_source_line
    &&& a.hovered_element == b.hovered_element
    &&& a.collapsed_modules@ == b.collapsed_modules@
    &&& a.expanded_polymorphs == b.expanded_polymorphs
}

/// The same project, the same function shown and the same way back.
pub open spec fn same_shown(a: CompilerExplorer, b: CompilerExplorer) -> bool {
    &&& a.project == b.project
    &&& a.source_lines@ == b.source_lines@
    &&& a.ir_variables@ == b.ir_variables@
    &&& a.ir_values@ == b.ir_values@
    &&& same_rows(a.ir_instructions@, b.ir_instructions@)
    &&& a.active_lines@ == b.active_lines@
    &&& a.active_color_index == b.active_color_index
    &&& a.current_target == b.current_target
    &&& a.nav_history == b.nav_history
}

/// `e` shows the details `d` of the function `target`, with the project,
/// settings and the way back of `old` kept, except that the way back is
/// `history`.
pub open spec fn navigated(e: CompilerExplorer, old: CompilerExplorer, d: ObjectDetails, target: String, history: Seq<String>) -> bool {
    &&& shows(e, d)
    &&& e.project == old.project
    &&& e.current_target == Some(target)
    &&& e.nav_history@ == history
    &&& same_settings(e, old)
}

/// The way back after leaving the function `current` (if one is
/// selected): it is added, unless it is the last function there already.
pub open spec fn history_after(history: Seq<String>, current: Option<String>) -> Seq<String> {
    match current {
        Some(c) => if history.len() > 0 && history.last()@ == c@ {
            history
        } else {
            history.push(c)
        },
        None => history,
    }
}

fn copy_lines(v: &Vec<String>) -> (r: Vec<String>)
    ensures
        r@ == v@,
{
    let mut r: Vec<String> = Vec::new();
    let mut i: usize = 0;
    while i < v.len()
        invariant
            0 <= i <= v@.len(),
            r@ == v@.take(i as int),
        decreases v@.len() - i,
    {
        r.push(v[i].clone());
        i = i + 1;
        assert(r@ =~= v@.take(i as int));
    }
    assert(v@.take(i as int) =~= v@);
    r
}

fn copy_variables(v: &Vec<UiVariable>) -> (r: Vec<UiVariable>)
    ensures
        r@ == v@,
{
    let mut r: Vec<UiVariable> = Vec::new();
    let mut i: usize = 0;
    while i < v.len()
        invariant
            0 <= i <= v@.len(),
            r@ == v@.take(i as int),
        decreases v@.len() - i,
    {
        let x = &v[i];
        r.push(UiVariable { id: x.id, identifier: x.identifier.clone(), ty: x.ty.clone() });
        i = i + 1;
        assert(r@ =~= v@.take(i as int));
    }
    assert(v@.take(i as int) =~= v@);
    r
}

fn copy_values(v: &Vec<UiValue>) -> (r: Vec<UiValue>)
    ensures
        r@ == v@,
{
    let mut r: Vec<UiValue> = Vec::new();
    let mut i: usize = 0;
    while i < v.len()
        invariant
            0 <= i <= v@.len(),
            r@ == v@.take(i as int),
        decreases v@.len() - i,
    {
        let x = &v[i];
        r.push(UiValue { id: x.id, ty: x.ty.clone() });
        i = i + 1;
        assert(r@ =~= v@.take(i as int));
    }
    assert(v@.take(i as int) =~= v@);
    r
}

fn copy_elements(v: &Vec<IrElement>) -> (r: Vec<IrElement>)
    ensures
        r@ == v@,
{
    let mut r: Vec<IrElement> = Vec::new();
    let mut i: usize = 0;
    while i < v.len()
        invariant
            0 <= i <= v@.len(),
            r@ == v@.take(i as int),
        decreases v@.len() - i,
    {
        let e = match &v[i] {
            IrElement::Text(t) => IrElement::Text(t.clone()),
            IrElement::Variable { id } => IrElement::Variable { id: *id },
            IrElement::Value { id } => IrElement::Value { id: *id },
            IrElement::Function { id } => IrElement::Function { id: *id },
            IrElement::Operator(o) => IrElement::Operator(o.clone()),
            IrElement::Block(b) => IrElement::Block(*b),
        };
        r.push(e);
        i = i + 1;
        assert(r@ =~= v@.take(i as int));
    }
    assert(v@.take(i as int) =~= v@);
    r
}

fn copy_rows(v: &Vec<UiIrInstruction>) -> (r: Vec<UiIrInstruction>)
    ensures
        same_rows(r@, v@),
{
    let mut r: Vec<UiIrInstruction> = Vec::new();
    let mut i: usize = 0;
    while i < v.len()
        invariant
            0 <= i <= v@.len(),
            same_rows(r@, v@.take(i as int)),
        decreases v@.len() - i,
    {
        let x = &v[i];
        r.push(
            UiIrInstruction {
                elements: copy_elements(&x.elements),
                source_line_index: x.source_line_index,
                block_idx: x.block_idx,
                description: x.description.clone(),
                kind: x.kind,
            },
        );
        i = i + 1;
    }
    assert(v@.take(i as int) =~= v@);
    r
}

/// The index of the details named `key`: of the last entry by that name.
fn find_details(details: &Vec<(String, ObjectDetails)>, key: &String) -> (r: Option<usize>)
    ensures
        match r {
            Some(i) => i < details@.len() && details@[i as int].0@ == key@ && named(details@, key@) == Some(
                details@[i as int].1,
            ),
            None => named(details@, key@) is None,
        },
{
    let mut i: usize = details.len();
    assert(details@.take(details@.len() as int) =~= details@);
    while i > 0
        invariant
            i <= details@.len(),
            named(details@, key@) == named(details@.take(i as int), key@),
        decreases i,
    {
        assert(details@.take(i as int).drop_last() =~= details@.take(i - 1));
        if details[i - 1].0 == *key {
            return Some(i - 1);
        }
        i = i - 1;
    }
    None
}

/// The least source line the rows come from, if any (see `least_line`).
fn least_row_line(rows: &Vec<UiIrInstruction>) -> (r: Option<usize>)
    ensures
        r == least_line(source_lines(rows@)),
{
    let ghost lines = source_lines(rows@);
    let mut least: Option<usize> = None;
    let mut i: usize = 0;
    while i < rows.len()
        invariant
            lines == source_lines(rows@),
            0 <= i <= rows@.len(),
            least == least_line(lines.take(i as int)),
        decreases rows@.len() - i,
    {
        proof {
            assert(lines.take(i + 1).drop_last() =~= lines.take(i as int));
            assert(lines.take(i + 1).last() == rows@[i as int].source_line_index);
        }
        if let Some(l) = rows[i].source_line_index {
            least = match least {
                Some(m) => Some(if l < m { l } else { m }),
                None => Some(l),
            };
        }
        i = i + 1;
    }
    proof {
        assert(lines.take(i as int) =~= lines);
    }
    least
}

/// Where the source view scrolls when `rows` are shown (see `scroll_for`).
fn scroll_to_rows(rows: &Vec<UiIrInstruction>) -> (s: Scroll)
    ensures
        s == scroll_for(rows@),
{
    match least_row_line(rows) {
        Some(l) => Scroll::SourceLine(if l >= 2 { l - 2 } else { 0 }),
        None => Scroll::Nowhere,
    }
}

/// The index of the first row that comes from source line `line`.
fn first_row(rows: &Vec<UiIrInstruction>, line: usize) -> (r: Option<usize>)
    ensures
        match r {
            Some(j) => first_row_of(rows@, line, 0) == Some(j as nat),
            None => first_row_of(rows@, line, 0) is None,
        },
{
    let mut i: usize = 0;
    while i < rows.len()
        invariant
            0 <= i <= rows@.len(),
            first_row_of(rows@, line, 0) == first_row_of(rows@, line, i as nat),
        decreases rows@.len() - i,
    {
        if rows[i].source_line_index == Some(line) {
            return Some(i);
        }
        i = i + 1;
    }
    assert(first_row_of(rows@, line, i as nat) is None);
    None
}

/// Copies of what `d` shows: its lines, variables, values and rows, the
/// colours of the rows' lines, its colour, and where the source view
/// scrolls to.
fn copy_details(d: &ObjectDetails) -> (r: (Vec<String>, Vec<UiVariable>, Vec<UiValue>, Vec<UiIrInstruction>, HashMap<usize, usize>, usize, Scroll))
    requires
        d.ir_instructions@.len() < usize::MAX,
    ensures
        r.0@ == d.source_lines@,
        r.1@ == d.ir_variables@,
        r.2@ == d.ir_values@,
        same_rows(r.3@, d.ir_instructions@),
        r.4@ == line_colors(source_lines(d.ir_instructions@)),
        r.5 == d.color_index,
        r.6 == scroll_for(d.ir_instructions@),
{
    (
        copy_lines(&d.source_lines),
        copy_variables(&d.ir_variables),
        copy_values(&d.ir_values),
        copy_rows(&d.ir_instructions),
        build_line_colors(d.ir_instructions.as_slice()),
        d.color_index,
        scroll_to_rows(&d.ir_instructions),
    )
}

/// Adds `name` to `names` if it is not there, and takes it out if it is.
fn toggle_name(names: &mut Vec<String>, name: String)
    requires
        distinct_strings(old(names)@),
    ensures
        distinct_strings(final(names)@),
        name_set(final(names)@) == if name_set(old(names)@).contains(name@) {
            name_set(old(names)@).remove(name@)
        } else {
            name_set(old(names)@).insert(name@)
        },
{
    let ghost before = names@;
    let mut i: usize = 0;
    while i < names.len()
        invariant
            names@ == before,
            before == old(names)@,
            distinct_strings(before),
            0 <= i <= before.len(),
            forall|k: int| 0 <= k < i ==> (#[trigger] before[k])@ != name@,
        decreases before.len() - i,
    {
        if names[i] == name {
            names.remove(i);
            proof {
                assert forall|n: Seq<char>| #[trigger] name_set(names@).contains(n) == name_set(before).remove(name@).contains(n) by {
                    if name_set(names@).contains(n) {
                        let k = choose|k: int| 0 <= k < names@.len() && (#[trigger] names@[k])@ == n;
                        if k < i {
                            assert(names@[k] == before[k]);
                        } else {
                            assert(names@[k] == before[k + 1]);
                        }
                    }
                    if name_set(before).remove(name@).contains(n) {
                        let k = choose|k: int| 0 <= k < before.len() && (#[trigger] before[k])@ == n;
                        if k < i {
                            assert(names@[k] == before[k]);
                        } else if k > i {
                            assert(names@[k - 1] == before[k]);
                        }
                    }
                }
                assert(name_set(names@) =~= name_set(before).remove(name@));
                assert(name_set(before).contains(name@)) by {
                    assert(before[i as int]@ == name@);
                }
                assert forall|a: int, b: int| 0 <= a < b < names@.len() implies (#[trigger] names@[a])@ != (
                #[trigger] names@[b])@ by {
                    let a0 = if a < i { a } else { a + 1 };
                    let b0 = if b < i { b } else { b + 1 };
                    assert(names@[a] == before[a0]);
                    assert(names@[b] == before[b0]);
                }
            }
            return;
        }
        i = i + 1;
    }
    let ghost n0 = name@;
    names.push(name);
    proof {
        assert(!name_set(before).contains(n0)) by {
            if name_set(before).contains(n0) {
                let k = choose|k: int| 0 <= k < before.len() && (#[trigger] before[k])@ == n0;
                assert(before[k]@ != n0);
            }
        }
        assert forall|n: Seq<char>| #[trigger] name_set(names@).contains(n) == name_set(before).insert(n0).contains(n) by {
            if name_set(before).contains(n) {
                let k = choose|k: int| 0 <= k < before.len() && (#[trigger] before[k])@ == n;
                assert(names@[k] == before[k]);
            }
            if n == n0 {
                assert(names@[before.len() as int]@ == n0);
            }
            if name_set(names@).contains(n) {
                let k = choose|k: int| 0 <= k < names@.len() && (#[trigger] names@[k])@ == n;
                if k < before.len() {
                    assert(names@[k] == before[k]);
                }
            }
        }
        assert(name_set(names@) =~= name_set(before).insert(n0));
    }
}

impl CompilerExplorer {
    /// The explorer of `project`, showing the first function it has
    /// details of, if any, and scrolled to that function's first source
    /// line; no section open, nothing pointed at, no module folded, no
    /// polymorphic function unfolded, no way back.
    pub fn new(project: Option<LoadedProject>) -> (r: (CompilerExplorer, Scroll))
        requires
            listings_fit(project),
        ensures
            r.0.wf(),
            r.0.project == project,
            !r.0.variables_expanded,
            !r.0.values_expanded,
            r.0.hovered_source_line is None,
            r.0.hovered_element is None,
            r.0.collapsed_modules@ == Set::<usize>::empty(),
            r.0.expanded_polymorphs@.len() == 0,
            r.0.nav_history@.len() == 0,
            match project {
                Some(p) if p.details@.len() > 0 => {
                    &&& shows(r.0, p.details@[0].1)
                    &&& r.0.current_target == Some(p.details@[0].0)
                    &&& r.1 == scroll_for(p.details@[0].1.ir_instructions@)
                },
                _ => {
                    &&& r.0.source_lines@.len() == 0
                    &&& r.0.ir_variables@.len() == 0
                    &&& r.0.ir_values@.len() == 0
                    &&& r.0.ir_instructions@.len() == 0
                    &&& r.0.active_lines@ == Map::<usize, usize>::empty()
                    &&& r.0.active_color_index == 0
                    &&& r.0.current_target is None
                    &&& r.1 == Scroll::Nowhere
                },
            },
    {
        let mut explorer = CompilerExplorer {
            project,
            source_lines: Vec::new(),
            ir_variables: Vec::new(),
            ir_values: Vec::new(),
            ir_instructions: Vec::new(),
            variables_expanded: false,
            values_expanded: false,
            active_lines: HashMap::new(),
            active_color_index: 0,
            hovered_source_line: None,
            hovered_element: None,
            nav_history: Vec::new(),
            current_target: None,
            collapsed_modules: HashSet::new(),
            expanded_polymorphs: Vec::new(),
        };
        let found = match &explorer.project {
            Some(proj) => if proj.details.len() > 0 {
                assert(proj.details@[0].1.ir_instructions@.len() < usize::MAX);
                Some((proj.details[0].0.clone(), copy_details(&proj.details[0].1)))
            } else {
                None
            },
            None => None,
        };
        let scroll = match found {
            Some((target, (lines, variables, values, rows, colors, color, scroll))) => {
                explorer.current_target = Some(target);
                explorer.source_lines = lines;
                explorer.ir_variables = variables;
                explorer.ir_values = values;
                explorer.ir_instructions = rows;
                explorer.active_lines = colors;
                explorer.active_color_index = color;
                scroll
            },
            None => Scroll::Nowhere,
        };
        (explorer, scroll)
    }

    /// Answers `message` and says where a view scrolls to: folds or
    /// unfolds a module or a polymorphic function; shows the function
    /// `target` if the project has its details, noting the function shown
    /// so far on the way back (unless it is last there already), or goes
    /// back to the last function there (taking it off even if its details
    /// are gone); scrolls the source view to a clicked row's line, or the
    /// listing to the first row from a clicked line; notes what the
    /// pointer is on (but not a bare text or operator); opens or closes
    /// the variables or the values. Nothing else changes.
    pub fn update(&mut self, message: Message) -> (scroll: Scroll)
        requires
            old(self).wf(),
        ensures
            final(self).wf(),
            match message {
                Message::ToggleModule(id) => {
                    &&& same_shown(*final(self), *old(self))
                    &&& final(self).variables_expanded == old(self).variables_expanded
                    &&& final(self).values_expanded == old(self).values_expanded
                    &&& final(self).hovered_source_line == old(self).hovered_source_line
                    &&& final(self).hovered_element == old(self).hovered_element
                    &&& final(self).expanded_polymorphs == old(self).expanded_polymorphs
                    &&& final(self).collapsed_modules@ == if old(self).collapsed_modules@.contains(id) {
                        old(self).collapsed_modules@.remove(id)
                    } else {
                        old(self).collapsed_modules@.insert(id)
                    }
                    &&& scroll == Scroll::Nowhere
                },
                Message::TogglePolymorphic(key) => {
                    &&& same_shown(*final(self), *old(self))
                    &&& final(self).variables_expanded == old(self).variables_expanded
                    &&& final(self).values_expanded == old(self).values_expanded
                    &&& final(self).hovered_source_line == old(self).hovered_source_line
                    &&& final(self).hovered_element == old(self).hovered_element
                    &&& final(self).collapsed_modules@ == old(self).collapsed_modules@
                    &&& name_set(final(self).expanded_polymorphs@) == if name_set(old(self).expanded_polymorphs@).contains(
                        key@,
                    ) {
                        name_set(old(self).expanded_polymorphs@).remove(key@)
                    } else {
                        name_set(old(self).expanded_polymorphs@).insert(key@)
                    }
                    &&& scroll == Scroll::Nowhere
                },
                Message::NavigateTo(target) => went_to(*final(self), *old(self), target, scroll),
                Message::NavigateBack => went_back(*final(self), *old(self), scroll),
                Message::ClickInstruction(line) => {
                    &&& *final(self) == *old(self)
                    &&& scroll == match line {
                        Some(l) => Scroll::SourceLine(if l >= 2 { (l - 2) as usize } else { 0 }),
                        None => Scroll::Nowhere,
                    }
                },
                Message::ClickSourceLine(line) => {
                    &&& *final(self) == *old(self)
                    &&& scroll == match first_row_of(old(self).ir_instructions@, line, 0) {
                        Some(i) => Scroll::IrRow(if i >= 1 { (i - 1) as usize } else { 0 }),
                        None => Scroll::Nowhere,
                    }
                },
                Message::HoverSourceLine(line) => {
                    &&& same_shown(*final(self), *old(self))
                    &&& final(self).variables_expanded == old(self).variables_expanded
                    &&& final(self).values_expanded == old(self).values_expanded
                    &&& final(self).hovered_element == old(self).hovered_element
                    &&& final(self).collapsed_modules@ == old(self).collapsed_modules@
                    &&& final(self).expanded_polymorphs == old(self).expanded_polymorphs
                    &&& final(self).hovered_source_line == line
                    &&& scroll == Scroll::Nowhere
                },
                Message::HoverElement(element) => match element {
                    Some(IrElement::Text(_)) => *final(self) == *old(self) && scroll == Scroll::Nowhere,
                    Some(IrElement::Operator(_)) => *final(self) == *old(self) && scroll == Scroll::Nowhere,
                    _ => {
                        &&& same_shown(*final(self), *old(self))
                        &&& final(self).variables_expanded == old(self).variables_expanded
                        &&& final(self).values_expanded == old(self).values_expanded
                        &&& final(self).hovered_source_line == old(self).hovered_source_line
                        &&& final(self).collapsed_modules@ == old(self).collapsed_modules@
                        &&& final(self).expanded_polymorphs == old(self).expanded_polymorphs
                        &&& final(self).hovered_element == element
                        &&& scroll == Scroll::Nowhere
                    },
                },
                Message::ToggleVariables => {
                    &&& same_shown(*final(self), *old(self))
                    &&& final(self).values_expanded == old(self).values_expanded
                    &&& final(self).hovered_source_line == old(self).hovered_source_line
                    &&& final(self).hovered_element == old(self).hovered_element
                    &&& final(self).collapsed_modules@ == old(self).collapsed_modules@
                    &&& final(self).expanded_polymorphs == old(self).expanded_polymorphs
                    &&& final(self).variables_expanded == !old(self).variables_expanded
                    &&& scroll == Scroll::Nowhere
                },
                Message::ToggleValues => {
                    &&& same_shown(*final(self), *old(self))
                    &&& final(self).variables_expanded == old(self).variables_expanded
                    &&& final(self).hovered_source_line == old(self).hovered_source_line
                    &&& final(self).hovered_element == old(self).hovered_element
                    &&& final(self).collapsed_modules@ == old(self).collapsed_modules@
                    &&& final(self).expanded_polymorphs == old(self).expanded_polymorphs
                    &&& final(self).values_expanded == !old(self).values_expanded
                    &&& scroll == Scroll::Nowhere
                },
            },
    {
        proof {
            assert(same_rows(self.ir_instructions@, self.ir_instructions@));
        }
        match message {
            Message::ToggleModule(id) => {
                if self.collapsed_modules.contains(&id) {
                    self.collapsed_modules.remove(&id);
                } else {
                    self.collapsed_modules.insert(id);
                }
                Scroll::Nowhere
            },
            Message::TogglePolymorphic(key) => {
                toggle_name(&mut self.expanded_polymorphs, key);
                Scroll::Nowhere
            },
            Message::HoverElement(element) => {
                match element {
                    Some(IrElement::Text(_)) => {},
                    Some(IrElement::Operator(_)) => {},
                    _ => self.hovered_element = element,
                }
                Scroll::Nowhere
            },
            Message::NavigateTo(target) => {
                let found = match &self.project {
                    Some(proj) => match find_details(&proj.details, &target) {
                        Some(i) => {
                            assert(proj.details@[i as int].1.ir_instructions@.len() < usize::MAX);
                            Some(copy_details(&proj.details[i].1))
                        },
                        None => None,
                    },
                    None => None,
                };
                match found {
                    Some((lines, variables, values, rows, colors, color, scroll)) => {
                        let current = self.current_target.take();
                        if let Some(c) = current {
                            let n = self.nav_history.len();
                            if n == 0 || self.nav_history[n - 1] != c {
                                self.nav_history.push(c);
                            }
                        }
                        self.current_target = Some(target);
                        self.source_lines = lines;
                        self.ir_variables = variables;
                        self.ir_values = values;
                        self.ir_instructions = rows;
                        self.active_lines = colors;
                        self.active_color_index = color;
                        scroll
                    },
                    None => Scroll::Nowhere,
                }
            },
            Message::NavigateBack => {
                if self.nav_history.len() == 0 {
                    return Scroll::Nowhere;
                }
                match self.nav_history.pop() {
                    Some(prev) => {
                        let found = match &self.project {
                            Some(proj) => match find_details(&proj.details, &prev) {
                                Some(i) => {
                                    assert(proj.details@[i as int].1.ir_instructions@.len() < usize::MAX);
                                    Some(copy_details(&proj.details[i].1))
                                },
                                None => None,
                            },
                            None => None,
                        };
                        match found {
                            Some((lines, variables, values, rows, colors, color, scroll)) => {
                                self.current_target = Some(prev);
                                self.source_lines = lines;
                                self.ir_variables = variables;
                                self.ir_values = values;
                                self.ir_instructions = rows;
                                self.active_lines = colors;
                                self.active_color_index = color;
                                scroll
                            },
                            None => Scroll::Nowhere,
                        }
                    },
                    None => Scroll::Nowhere,
                }
            },
            Message::ClickInstruction(line) => match line {
                Some(l) => Scroll::SourceLine(if l >= 2 { l - 2 } else { 0 }),
                None => Scroll::Nowhere,
            },
            Message::ClickSourceLine(line) => {
                let found = first_row(&self.ir_instructions, line);
                let scroll = match found {
                    Some(i) => Scroll::IrRow(if i >= 1 { i - 1 } else { 0 }),
                    None => Scroll::Nowhere,
                };
                scroll
            },
            Message::HoverSourceLine(line) => {
                self.hovered_source_line = line;
                Scroll::Nowhere
            },
            Message::ToggleVariables => {
                self.variables_expanded = !self.variables_expanded;
                Scroll::Nowhere
            },
            Message::ToggleValues => {
                self.values_expanded = !self.values_expanded;
                Scroll::Nowhere
            },
        }
    }
}

} // verus!
