//! Value types and popover state for the language-intelligence
//! providers: completion, definition and code actions.
//!
//! Providers run outside the library, asynchronously; the library
//! decides when to issue a request, stamps each with a request id,
//! and accepts a response only while its id is still current, so a
//! superseded query can never clobber a newer one.

use vstd::prelude::*;
use crate::cursor::{Position, Selection};

verus! {

/// A pair of positions delimiting a provider-facing range.
#[derive(Debug, Clone, Copy, PartialEq, Eq, Structural)]
pub struct PositionRange {
    pub start: Position,
    pub end: Position,
}

/// A text edit a provider proposes: replace `range` with `new_text`.
#[derive(Debug, Clone)]
pub struct TextEdit {
    pub range: PositionRange,
    pub new_text: String,
}

/// One completion entry a provider offers.
#[derive(Debug, Clone)]
pub struct CompletionItem {
    /// The label shown in the menu.
    pub label: String,
    /// The text inserted when the entry is confirmed.
    pub insert_text: String,
}

/// Why a completion request was issued.
#[derive(Debug, Clone, Copy, PartialEq, Eq, Structural)]
pub enum CompletionTriggerKind {
    Invoked,
    TriggerCharacter,
}

/// The context handed to the completion provider.
#[derive(Debug, Clone)]
pub struct CompletionContext {
    pub trigger_kind: CompletionTriggerKind,
    pub trigger_character: Option<String>,
}

/// A definition target a provider points at.
#[derive(Debug, Clone)]
pub struct LocationLink {
    /// The range of the symbol under the pointer, if the provider
    /// reports one.
    pub origin_selection_range: Option<PositionRange>,
    /// Where the definition lives: a URL, or a location in the
    /// current document.
    pub target_uri: String,
    /// The range of the definition in the target.
    pub target_range: PositionRange,
}

/// One action a code-action provider offers.
#[derive(Debug, Clone)]
pub struct CodeAction {
    /// Identifier of the provider that offered it.
    pub provider_id: String,
    /// The label shown in the menu.
    pub title: String,
    /// The edits performing the action.
    pub edits: Vec<TextEdit>,
}

/// A completion request the host should dispatch to its provider.
#[derive(Debug, Clone)]
pub struct CompletionRequest {
    /// Identity of the request; a response is accepted only while
    /// this is the newest completion request.
    pub id: u64,
    /// Byte offset of the cursor the completions are for.
    pub offset: usize,
    pub context: CompletionContext,
}

/// A definition request the host should dispatch to its provider.
#[derive(Debug, Clone, Copy, PartialEq, Eq, Structural)]
pub struct DefinitionRequest {
    /// Identity of the request.
    pub id: u64,
    /// Byte offset the definitions are asked for.
    pub offset: usize,
}

/// The completion menu: where the query started, what was typed, and
/// the entries shown once a response arrived.
#[derive(Debug, Clone)]
pub struct CompletionMenu {
    /// Id of the newest completion request; only its response is
    /// accepted.
    pub request_id: u64,
    /// Byte offset where the trigger character started the query.
    pub trigger_start_offset: usize,
    /// The query text between the trigger and the cursor.
    pub query: String,
    /// The entries of the menu; empty while the request is pending.
    pub items: Vec<CompletionItem>,
    /// Index of the selected entry.
    pub selected_ix: usize,
    /// Whether the menu is visible: a response with entries arrived
    /// and nothing has hidden it since.
    pub open: bool,
}

/// The code-action menu with the aggregated actions of every
/// provider that answered; providers that fail simply never
/// contribute.
#[derive(Debug, Clone)]
pub struct CodeActionMenu {
    /// Id of the newest code-action request round; only its
    /// responses are aggregated.
    pub request_id: u64,
    pub actions: Vec<CodeAction>,
    pub selected_ix: usize,
    pub open: bool,
}

/// The context menu of the input: at most one popover kind at a time.
#[derive(Debug, Clone)]
pub enum ContextMenu {
    Completion(CompletionMenu),
    CodeAction(CodeActionMenu),
}

impl ContextMenu {
    pub open spec fn spec_is_open(&self) -> bool {
        match self {
            ContextMenu::Completion(menu) => menu.open,
            ContextMenu::CodeAction(menu) => menu.open,
        }
    }

    /// Whether the popover is visible.
    pub fn is_open(&self) -> (r: bool)
        ensures
            r == self.spec_is_open(),
    {
        match self {
            ContextMenu::Completion(menu) => menu.open,
            ContextMenu::CodeAction(menu) => menu.open,
        }
    }
}

/// The definition lookup attached to the symbol the pointer hovers.
#[derive(Debug, Clone)]
pub struct HoverDefinition {
    /// The byte range of the symbol that triggered the hover.
    pub symbol_range: Selection,
    /// The definition locations the provider returned.
    pub locations: Vec<LocationLink>,
}

impl HoverDefinition {
    pub fn new(symbol_range: Selection, locations: Vec<LocationLink>) -> (r: Self)
        ensures
            r.symbol_range == symbol_range,
            r.locations == locations,
    {
        Self { symbol_range, locations }
    }

    /// Whether `offset` still lies on the hovered symbol, so the
    /// running lookup stays relevant and no new one is issued.
    pub fn is_same(&self, offset: usize) -> (r: bool)
        ensures
            r == (self.symbol_range.start <= offset < self.symbol_range.end),
    {
        self.symbol_range.start <= offset && offset < self.symbol_range.end
    }
}

} // verus!
