//! The page that shows the document: the ids of its elements, the scripts
//! that act on it, the entries of the queue of pending updates, and the work
//! that the editor hands to its host.

use vstd::prelude::*;
use vstd::string::StringExecFns;
use crate::numbers::{decimal, push_decimal};
use crate::strings::{push_range, replace_all, replace_chars, to_chars};

verus! {

/// An entry of the queue of pending updates, as a mathematical value: the
/// operation, the id it is about, and its data.
pub type Message = (Seq<char>, Seq<char>, Option<Seq<char>>);

/// An entry of the queue of pending updates.
#[derive(Debug, Clone, PartialEq)]
pub struct DomUpdate {
    pub operation: String,
    pub id: String,
    pub data: Option<String>,
}

impl View for DomUpdate {
    type V = Message;

    open spec fn view(&self) -> Message {
        (
            self.operation@,
            self.id@,
            match self.data {
                Some(data) => Some(data@),
                None => None,
            },
        )
    }
}

/// Work that the editor hands to its host, as a mathematical value.
pub enum Effect {
    Eval(Seq<char>),
    ReadCaret(usize, usize),
    Focus(usize, usize, usize),
    Measure(usize, usize, Seq<char>),
    Queue(Message),
    SetInternal(bool),
}

/// Work that the editor hands to its host.
#[derive(Debug, Clone, PartialEq)]
pub enum Action {
    /// Run the script in the page.
    Eval(String),
    /// Read the caret of the cell back from the page.
    ReadCaret(usize, usize),
    /// Give the cell the focus, with the caret at the offset.
    Focus(usize, usize, usize),
    /// Measure the width of the text for the cell.
    Measure(usize, usize, String),
    /// Put the entry at the end of the queue of pending updates.
    Queue(DomUpdate),
    /// Note whether the editor is rewriting the page on its own account.
    SetInternal(bool),
}

impl View for Action {
    type V = Effect;

    open spec fn view(&self) -> Effect {
        match self {
            Action::Eval(script) => Effect::Eval(script@),
            Action::ReadCaret(row, col) => Effect::ReadCaret(*row, *col),
            Action::Focus(row, col, offset) => Effect::Focus(*row, *col, *offset),
            Action::Measure(row, col, text) => Effect::Measure(*row, *col, text@),
            Action::Queue(update) => Effect::Queue(update@),
            Action::SetInternal(on) => Effect::SetInternal(*on),
        }
    }
}

impl DeepView for Action {
    type V = Effect;

    open spec fn deep_view(&self) -> Effect {
        self@
    }
}

/// What a vector of actions shows after one more action has been pushed.
pub proof fn lemma_actions_push(before: Vec<Action>, after: Vec<Action>, action: Action)
    requires
        after@ == before@.push(action),
    ensures
        after.deep_view() == before.deep_view().push(action@),
{
    assert(after.deep_view() =~= before.deep_view().push(action@));
}

/// Pushes `action` onto `actions`.
pub fn push_action(actions: &mut Vec<Action>, action: Action)
    ensures
        final(actions).deep_view() == old(actions).deep_view().push(action@),
{
    let ghost before = *actions;
    actions.push(action);
    proof {
        lemma_actions_push(before, *actions, action);
    }
}

/// The queue entry with the given operation, id and data, as work for the
/// host.
pub open spec fn queued(operation: Seq<char>, id: Seq<char>, data: Seq<char>) -> Effect {
    Effect::Queue((operation, id, Some(data)))
}

/// Pushes the queue entry with the given operation, id and data.
pub fn push_queued(actions: &mut Vec<Action>, operation: &str, id: String, data: String)
    ensures
        final(actions).deep_view() == old(actions).deep_view().push(
            queued(operation@, id@, data@),
        ),
{
    let update = DomUpdate { operation: String::from_str(operation), id, data: Some(data) };
    push_action(actions, Action::Queue(update));
}

/// The id of the element that shows cell `(row, col)`.
pub open spec fn element_id(row: nat, col: nat) -> Seq<char> {
    "textarea-"@ + decimal(row) + "-"@ + decimal(col)
}

/// The id of the element that shows row `row`.
pub open spec fn row_id(row: nat) -> Seq<char> {
    "textrow-"@ + decimal(row)
}

/// The id by which a queue entry names a cell and an offset in it.
pub open spec fn cell_id(row: nat, col: nat, offset: nat) -> Seq<char> {
    decimal(row) + ","@ + decimal(col) + ","@ + decimal(offset)
}

/// The id of the element that shows cell `(index_i, index_j)`.
pub fn get_element_id(index_i: usize, index_j: usize) -> (id: String)
    ensures
        id@ == element_id(index_i as nat, index_j as nat),
{
    let mut id = String::new();
    id.append("textarea-");
    push_decimal(&mut id, index_i);
    id.append("-");
    push_decimal(&mut id, index_j);
    assert(id@ =~= element_id(index_i as nat, index_j as nat));
    id
}

/// The id of the element that shows row `index_i`.
pub fn get_row_id(index_i: usize) -> (id: String)
    ensures
        id@ == row_id(index_i as nat),
{
    let mut id = String::new();
    id.append("textrow-");
    push_decimal(&mut id, index_i);
    assert(id@ =~= row_id(index_i as nat));
    id
}

/// The id by which a queue entry names cell `(index_i, index_j)` and the
/// offset `offset` in it.
pub fn get_cell_id(index_i: usize, index_j: usize, offset: usize) -> (id: String)
    ensures
        id@ == cell_id(index_i as nat, index_j as nat, offset as nat),
{
    let mut id = String::new();
    push_decimal(&mut id, index_i);
    id.append(",");
    push_decimal(&mut id, index_j);
    id.append(",");
    push_decimal(&mut id, offset);
    assert(id@ =~= cell_id(index_i as nat, index_j as nat, offset as nat));
    id
}

/// `text` as it stands between single quotes in a script: each single quote
/// has a backslash before it.
pub open spec fn quoted(text: Seq<char>) -> Seq<char> {
    replace_all(text, seq!['\''], seq!['\\', '\''])
}

/// The script that sets the text of the element `id` to `text`.
pub open spec fn clear_text_script(id: Seq<char>, text: Seq<char>) -> Seq<char> {
    "return window.clearElementText('"@ + id + "', '"@ + quoted(text) + "');"@
}

/// The script that reads the caret of the element `id`.
pub open spec fn caret_script(id: Seq<char>) -> Seq<char> {
    "return window.getCaretClickPosition('"@ + id + "');"@
}

/// The script that reads the text of the element `id`.
pub open spec fn text_script(id: Seq<char>) -> Seq<char> {
    "return window.getElementText('"@ + id + "');"@
}

/// The script that gives the element `id` the focus, with the caret at the
/// offset `offset`.
pub open spec fn focus_script(id: Seq<char>, offset: nat) -> Seq<char> {
    "return window.focusElementAndSetCaret('"@ + id + "', "@ + decimal(offset) + ");"@
}

/// The script that takes the row element `id` out of the page.
pub open spec fn delete_row_script(id: Seq<char>) -> Seq<char> {
    "return window.deleteRow('"@ + id + "');"@
}

/// The script that puts the row element `id` into the page.
pub open spec fn create_row_script(id: Seq<char>) -> Seq<char> {
    "return window.createRow('"@ + id + "');"@
}

/// The script that takes the element `id` out of the page.
pub open spec fn delete_element_script(id: Seq<char>) -> Seq<char> {
    "return window.deleteElement('"@ + id + "');"@
}

/// The script that puts a cell element into the page.
pub open spec fn create_cell_script(
    id: Seq<char>,
    row: Seq<char>,
    text: Seq<char>,
    style: Seq<char>,
) -> Seq<char> {
    "return window.createCell('"@ + id + "', '"@ + row + "', '"@ + text + "', '"@ + style
        + "');"@
}

/// The script that measures how wide `text` is when it is shown in a cell.
pub open spec fn measure_script(text: Seq<char>) -> Seq<char> {
    "let span = document.createElement('span'); span.style.fontFamily = 'CqMono'; span.style.fontSize = '16px'; span.style.padding = '0px'; span.style.lineHeight = '1.2'; span.style.position = 'absolute'; span.style.visibility = 'hidden'; span.style.whiteSpace = 'pre'; span.textContent = '"@
        + text
        + "'; document.body.appendChild(span); let width = span.offsetWidth + 0; document.body.removeChild(span); return width;"@
}

/// The script that sets the text of the element `id` to the text whose
/// Base64 form is `encoded`, with the caret at the offset `offset`.
pub open spec fn positioned_text_script(id: Seq<char>, encoded: Seq<char>, offset: nat) -> Seq<char> {
    "return window.clearElementTextWithPosition('"@ + id + "', atob(\""@ + encoded + "\"), "@
        + decimal(offset) + ");"@
}

/// Builds [`clear_text_script`].
pub fn make_clear_text_script(id: &str, text: &str) -> (script: String)
    ensures
        script@ == clear_text_script(id@, text@),
{
    let chars = to_chars(text);
    let quote: Vec<char> = vec!['\''];
    let escaped: Vec<char> = vec!['\\', '\''];
    assert(quote@ =~= seq!['\'']);
    assert(escaped@ =~= seq!['\\', '\'']);
    let safe = replace_chars(&chars, &quote, &escaped);
    let mut script = String::new();
    script.append("return window.clearElementText('");
    script.append(id);
    script.append("', '");
    push_range(&mut script, &safe, 0, safe.len());
    script.append("');");
    assert(safe@.subrange(0, safe.len() as int) =~= safe@);
    assert(script@ =~= clear_text_script(id@, text@));
    script
}

/// Builds [`caret_script`].
pub fn make_caret_script(id: &str) -> (script: String)
    ensures
        script@ == caret_script(id@),
{
    let mut script = String::new();
    script.append("return window.getCaretClickPosition('");
    script.append(id);
    script.append("');");
    assert(script@ =~= caret_script(id@));
    script
}

/// Builds [`text_script`].
pub fn make_text_script(id: &str) -> (script: String)
    ensures
        script@ == text_script(id@),
{
    let mut script = String::new();
    script.append("return window.getElementText('");
    script.append(id);
    script.append("');");
    assert(script@ =~= text_script(id@));
    script
}

/// Builds [`focus_script`].
pub fn make_focus_script(id: &str, offset: usize) -> (script: String)
    ensures
        script@ == focus_script(id@, offset as nat),
{
    let mut script = String::new();
    script.append("return window.focusElementAndSetCaret('");
    script.append(id);
    script.append("', ");
    push_decimal(&mut script, offset);
    script.append(");");
    assert(script@ =~= focus_script(id@, offset as nat));
    script
}

/// Builds [`delete_row_script`].
pub fn make_delete_row_script(id: &str) -> (script: String)
    ensures
        script@ == delete_row_script(id@),
{
    let mut script = String::new();
    script.append("return window.deleteRow('");
    script.append(id);
    script.append("');");
    assert(script@ =~= delete_row_script(id@));
    script
}

/// Builds [`create_row_script`].
pub fn make_create_row_script(id: &str) -> (script: String)
    ensures
        script@ == create_row_script(id@),
{
    let mut script = String::new();
    script.append("return window.createRow('");
    script.append(id);
    script.append("');");
    assert(script@ =~= create_row_script(id@));
    script
}

/// Builds [`delete_element_script`].
pub fn make_delete_element_script(id: &str) -> (script: String)
    ensures
        script@ == delete_element_script(id@),
{
    let mut script = String::new();
    script.append("return window.deleteElement('");
    script.append(id);
    script.append("');");
    assert(script@ =~= delete_element_script(id@));
    script
}

/// Builds [`create_cell_script`].
pub fn make_create_cell_script(id: &str, row: &str, text: &str, style: &str) -> (script: String)
    ensures
        script@ == create_cell_script(id@, row@, text@, style@),
{
    let mut script = String::new();
    script.append("return window.createCell('");
    script.append(id);
    script.append("', '");
    script.append(row);
    script.append("', '");
    script.append(text);
    script.append("', '");
    script.append(style);
    script.append("');");
    assert(script@ =~= create_cell_script(id@, row@, text@, style@));
    script
}

/// Builds [`measure_script`].
pub fn make_measure_script(text: &str) -> (script: String)
    ensures
        script@ == measure_script(text@),
{
    let mut script = String::new();
    script.append(
        "let span = document.createElement('span'); span.style.fontFamily = 'CqMono'; span.style.fontSize = '16px'; span.style.padding = '0px'; span.style.lineHeight = '1.2'; span.style.position = 'absolute'; span.style.visibility = 'hidden'; span.style.whiteSpace = 'pre'; span.textContent = '",
    );
    script.append(text);
    script.append(
        "'; document.body.appendChild(span); let width = span.offsetWidth + 0; document.body.removeChild(span); return width;",
    );
    assert(script@ =~= measure_script(text@));
    script
}

/// Builds [`positioned_text_script`].
pub fn make_positioned_text_script(id: &str, encoded: &str, offset: usize) -> (script: String)
    ensures
        script@ == positioned_text_script(id@, encoded@, offset as nat),
{
    let mut script = String::new();
    script.append("return window.clearElementTextWithPosition('");
    script.append(id);
    script.append("', atob(\"");
    script.append(encoded);
    script.append("\"), ");
    push_decimal(&mut script, offset);
    script.append(");");
    assert(script@ =~= positioned_text_script(id@, encoded@, offset as nat));
    script
}

} // verus!
