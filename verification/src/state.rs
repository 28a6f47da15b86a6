//! The edit/selection controller: one value owning the buffer, the
//! soft-wrap cache, the selection, the marker overlay and the popover
//! state machines.
//!
//! Only this controller mutates the buffer; asynchronous provider
//! work happens outside, against snapshots, and comes back through
//! the `apply_*` functions, which drop anything stale.

use vstd::prelude::*;
use vstd::pervasive::VecAdditionalExecFns;
use crate::buffer::{TextBuffer, clip_left, position_to_offset_spec, trim_left_char,
    trim_right_char, word_start_char, word_end_char, lemma_clip_left_mono};
use crate::cursor::{Bias, Selection};
use crate::lsp::{CompletionContext, CompletionItem, CompletionMenu, CompletionRequest,
    CompletionTriggerKind, ContextMenu, CodeActionMenu, DefinitionRequest, HoverDefinition,
    LocationLink, TextEdit, CodeAction};
use crate::marker::{Marker, line_column_offset};
use crate::text_wrapper::{LineShaper, TextWrapper};
use crate::unicode::{byte_len, char_of_byte, is_boundary, lemma_byte_len_concat,
    lemma_byte_len_take_mono, lemma_char_of_byte_at_boundary, lemma_char_of_byte_floor,
    lemma_boundary_iff_floor_exact};

verus! {

/// The lower endpoint of a possibly reversed range.
pub open spec fn norm_lo(r: Selection) -> usize {
    if r.start <= r.end {
        r.start
    } else {
        r.end
    }
}

/// The upper endpoint of a possibly reversed range.
pub open spec fn norm_hi(r: Selection) -> usize {
    if r.start <= r.end {
        r.end
    } else {
        r.start
    }
}

/// The text after replacing the bytes `lo..hi` (each clipped down to
/// a character boundary) with `t`.
pub open spec fn spliced(s: Seq<char>, lo: int, hi: int, t: Seq<char>) -> Seq<char> {
    s.take(char_of_byte(s, lo)) + t + s.skip(char_of_byte(s, hi))
}

/// The completion query text: what stands between the trigger offset
/// and the cursor, with surrounding whitespace stripped.
pub open spec fn completion_query(s: Seq<char>, start_b: int, end_b: int) -> Seq<char> {
    let ca = char_of_byte(s, start_b);
    let cb = char_of_byte(s, end_b);
    let a = trim_left_char(s, ca, cb);
    let b = trim_right_char(s, a, cb);
    s.subrange(a, b)
}

/// What a secondary click on a hovered symbol leads to.
#[derive(Debug, Clone)]
pub enum ClickOutcome {
    /// Not on a hovered symbol, or no definition known.
    NotHandled,
    /// The definition is a web link the host should open.
    OpenUrl(String),
    /// The cursor moved to the definition's range.
    Moved,
}

/// The state of one text input.
pub struct InputState<S: LineShaper> {
    /// The text.
    pub text: TextBuffer,
    /// The soft-wrap cache over `text`.
    pub text_wrapper: TextWrapper<S>,
    /// The selected byte range; both ends lie on character
    /// boundaries.
    pub selected_range: Selection,
    /// Whether the anchor of the selection is its end.
    pub selection_reversed: bool,
    /// The diagnostic overlay.
    pub markers: Vec<Marker>,
    /// The open popover, if any.
    pub context_menu: Option<ContextMenu>,
    /// The definition lookup shown for the hovered symbol.
    pub hover_definition: Option<HoverDefinition>,
    /// The in-flight definition request with the symbol range it was
    /// issued for.
    pub pending_definition: Option<(DefinitionRequest, Selection)>,
    /// Stamps handed to provider requests; a response is accepted
    /// only if it carries the newest stamp of its kind.
    pub next_request_id: u64,
    /// Set by the host around programmatic insertions so they do not
    /// re-trigger completion.
    pub completion_inserting: bool,
}

impl<S: LineShaper> InputState<S> {
    /// The wrap cache describes the buffer and the selection lies on
    /// character boundaries inside it.
    pub open spec fn wf(&self) -> bool {
        &&& self.text_wrapper.wf()
        &&& self.text_wrapper.text@ == self.text@
        &&& is_boundary(self.text@, self.selected_range.start as int)
        &&& is_boundary(self.text@, self.selected_range.end as int)
        &&& self.selected_range.start as int <= byte_len(self.text@)
        &&& self.selected_range.end as int <= byte_len(self.text@)
    }

    /// A fresh empty input.
    pub fn new(shaper: S, wrap_width: Option<usize>) -> (r: Self)
        ensures
            r.wf(),
            r.text@ == Seq::<char>::empty(),
            r.selected_range == (Selection { start: 0usize, end: 0usize }),
            r.markers@.len() == 0,
            r.context_menu is None,
            r.hover_definition is None,
            r.pending_definition is None,
            r.completion_inserting == false,
    {
        let text = TextBuffer::new();
        let text_wrapper = TextWrapper::new(shaper, wrap_width);
        proof {
            assert(Seq::<char>::empty().take(0) =~= Seq::<char>::empty());
            assert(is_boundary(Seq::<char>::empty(), 0));
        }
        InputState {
            text,
            text_wrapper,
            selected_range: Selection::new(0, 0),
            selection_reversed: false,
            markers: Vec::new(),
            context_menu: None,
            hover_definition: None,
            pending_definition: None,
            next_request_id: 0,
            completion_inserting: false,
        }
    }

    /// The cursor: the moving end of the selection.
    pub fn cursor(&self) -> (n: usize)
        ensures
            n == self.selected_range.end,
    {
        self.selected_range.end
    }

    /// Moves the caret to `offset`, clipped down to a character
    /// boundary; the selection collapses there.
    pub fn move_to(&mut self, offset: usize)
        requires
            old(self).wf(),
        ensures
            final(self).wf(),
            final(self).selected_range.start == clip_left(old(self).text@, offset as int),
            final(self).selected_range.end == final(self).selected_range.start,
            final(self).text@ == old(self).text@,
            final(self).text_wrapper == old(self).text_wrapper,
            final(self).markers == old(self).markers,
            final(self).context_menu == old(self).context_menu,
            final(self).hover_definition == old(self).hover_definition,
            final(self).pending_definition == old(self).pending_definition,
            final(self).next_request_id == old(self).next_request_id,
    {
        let o = self.text.clip_offset(offset, Bias::Left);
        self.selected_range = Selection::new(o, o);
        self.selection_reversed = false;
    }

    /// Extends the selection's moving end to `offset`, clipped down
    /// to a character boundary.
    pub fn select_to(&mut self, offset: usize)
        requires
            old(self).wf(),
        ensures
            final(self).wf(),
            final(self).selected_range.start == old(self).selected_range.start,
            final(self).selected_range.end == clip_left(old(self).text@, offset as int),
            final(self).text@ == old(self).text@,
            final(self).text_wrapper == old(self).text_wrapper,
            final(self).markers == old(self).markers,
            final(self).context_menu == old(self).context_menu,
            final(self).hover_definition == old(self).hover_definition,
            final(self).pending_definition == old(self).pending_definition,
            final(self).next_request_id == old(self).next_request_id,
    {
        let o = self.text.clip_offset(offset, Bias::Left);
        self.selected_range = Selection::new(self.selected_range.start, o);
    }

    /// Replaces `range` (or the selection when `range` is `None`)
    /// with `new_text`: the range is normalized and clipped, the
    /// buffer edited, the wrap cache updated incrementally, and the
    /// caret placed after the inserted text.
    pub fn replace_text_in_range(&mut self, range: Option<Selection>, new_text: &str)
        requires
            old(self).wf(),
        ensures
            final(self).wf(),
            ({
                let r0 = match range {
                    Option::Some(r) => r,
                    Option::None => old(self).selected_range,
                };
                let lo = norm_lo(r0) as int;
                let hi = norm_hi(r0) as int;
                &&& final(self).text@ == spliced(old(self).text@, lo, hi, new_text@)
                &&& final(self).selected_range.start == clip_left(old(self).text@, lo) + byte_len(
                    new_text@,
                )
                &&& final(self).selected_range.end == final(self).selected_range.start
            }),
            final(self).markers == old(self).markers,
            final(self).context_menu == old(self).context_menu,
            final(self).hover_definition == old(self).hover_definition,
            final(self).pending_definition == old(self).pending_definition,
            final(self).next_request_id == old(self).next_request_id,
            final(self).completion_inserting == old(self).completion_inserting,
    {
        let r0 = match range {
            Some(r) => r,
            None => self.selected_range,
        };
        let (lo, hi) = if r0.start <= r0.end {
            (r0.start, r0.end)
        } else {
            (r0.end, r0.start)
        };
        let ghost s_old = self.text@;
        let a = self.text.clip_offset(lo, Bias::Left);
        let b = self.text.clip_offset(hi, Bias::Left);
        proof {
            lemma_clip_left_mono(s_old, lo as int, hi as int);
            lemma_char_of_byte_floor(s_old, lo as int);
            lemma_char_of_byte_floor(s_old, hi as int);
            lemma_char_of_byte_at_boundary(s_old, char_of_byte(s_old, lo as int));
            lemma_char_of_byte_at_boundary(s_old, char_of_byte(s_old, hi as int));
            assert(s_old.take(s_old.len() as int) =~= s_old);
        }
        let ghost ca = char_of_byte(s_old, lo as int);
        let ghost cb = char_of_byte(s_old, hi as int);
        self.text.replace(Selection::new(a, b), new_text);
        proof {
            assert(char_of_byte(s_old, a as int) == ca);
            assert(char_of_byte(s_old, b as int) == cb);
            assert(self.text@ == spliced(s_old, lo as int, hi as int, new_text@));
        }
        self.text_wrapper.update(&self.text, Selection::new(a, b), new_text);
        let bytes = new_text.as_bytes();
        let nlen = bytes.len();
        let total = self.text.len();
        proof {
            crate::unicode::lemma_encode_utf8_len(new_text@);
            // the caret lands on the boundary after the inserted text
            let s_new = self.text@;
            assert(s_new.take(ca + new_text@.len()) =~= s_old.take(ca) + new_text@);
            lemma_byte_len_concat(s_old.take(ca), new_text@);
            assert(byte_len(s_new.take(ca + new_text@.len())) == a + byte_len(new_text@));
            assert(is_boundary(s_new, a + byte_len(new_text@)));
            lemma_byte_len_take_mono(s_new, ca + new_text@.len(), s_new.len() as int);
            assert(s_new.take(s_new.len() as int) =~= s_new);
            assert(a + nlen <= total);
        }
        self.selected_range = Selection::new(a + nlen, a + nlen);
        self.selection_reversed = false;
    }

    /// Installs the marker overlay and resolves every marker against
    /// the current buffer.
    pub fn set_markers(&mut self, markers: Vec<Marker>)
        requires
            old(self).wf(),
        ensures
            final(self).wf(),
            final(self).text@ == old(self).text@,
            final(self).markers@.len() == markers@.len(),
            forall|i: int|
                0 <= i < markers@.len() ==> marker_resolved(
                    #[trigger] final(self).markers@[i],
                    markers@[i],
                    old(self).text@,
                ),
            final(self).selected_range == old(self).selected_range,
            final(self).context_menu == old(self).context_menu,
    {
        self.markers = markers;
        self.prepare_markers();
    }

    /// Resolves every marker's line/column coordinates to byte
    /// ranges of the current buffer; must be run again after edits.
    pub fn prepare_markers(&mut self)
        requires
            old(self).wf(),
        ensures
            final(self).wf(),
            final(self).text@ == old(self).text@,
            final(self).text_wrapper == old(self).text_wrapper,
            final(self).markers@.len() == old(self).markers@.len(),
            forall|i: int|
                0 <= i < old(self).markers@.len() ==> marker_resolved(
                    #[trigger] final(self).markers@[i],
                    old(self).markers@[i],
                    old(self).text@,
                ),
            final(self).selected_range == old(self).selected_range,
            final(self).context_menu == old(self).context_menu,
            final(self).hover_definition == old(self).hover_definition,
            final(self).pending_definition == old(self).pending_definition,
            final(self).next_request_id == old(self).next_request_id,
    {
        let n = self.markers.len();
        let mut i: usize = 0;
        while i < n
            invariant
                old(self).wf(),
                self.text@ == old(self).text@,
                self.text_wrapper == old(self).text_wrapper,
                self.text == old(self).text,
                self.selected_range == old(self).selected_range,
                self.context_menu == old(self).context_menu,
                self.hover_definition == old(self).hover_definition,
                self.pending_definition == old(self).pending_definition,
                self.next_request_id == old(self).next_request_id,
                self.completion_inserting == old(self).completion_inserting,
                n == old(self).markers@.len(),
                self.markers@.len() == n,
                i <= n,
                forall|q: int|
                    0 <= q < i ==> marker_resolved(
                        #[trigger] self.markers@[q],
                        old(self).markers@[q],
                        old(self).text@,
                    ),
                forall|q: int|
                    i <= q < n ==> #[trigger] self.markers@[q] == old(self).markers@[q],
            decreases n - i,
        {
            let m = &self.markers[i];
            let start_off = self.text.line_column_to_offset(&m.start);
            let end_off = self.text.line_column_to_offset(&m.end);
            let updated = Marker {
                severity: m.severity,
                start: m.start,
                end: m.end,
                message: m.message.clone(),
                range: Some(Selection::new(start_off, end_off)),
            };
            self.markers.set(i, updated);
            i = i + 1;
        }
    }
}

/// The byte range of the word around `offset`, or the collapsed
/// range at `offset` where no word touches it.
pub open spec fn symbol_range_at(s: Seq<char>, offset: usize) -> Selection {
    if (offset as int) < byte_len(s) {
        let a = word_start_char(s, char_of_byte(s, offset as int));
        let b = word_end_char(s, char_of_byte(s, offset as int));
        if a == b {
            Selection { start: offset, end: offset }
        } else {
            Selection { start: byte_len(s.take(a)) as usize, end: byte_len(s.take(b)) as usize }
        }
    } else {
        Selection { start: offset, end: offset }
    }
}

/// A URL the host's browser should open rather than a location in
/// the buffer.
pub open spec fn is_web_url(u: Seq<char>) -> bool {
    (u.len() >= 8 && u.take(8) == "https://"@) || (u.len() >= 7 && u.take(7) == "http://"@)
}

/// The byte offset of a provider position in `s`, at the lower or
/// upper end of `e`'s range.
pub open spec fn edit_lo(s: Seq<char>, e: TextEdit) -> int {
    let a = position_to_offset_spec(s, e.range.start.line as int, e.range.start.character as int);
    let b = position_to_offset_spec(s, e.range.end.line as int, e.range.end.character as int);
    if a <= b {
        a
    } else {
        b
    }
}

pub open spec fn edit_hi(s: Seq<char>, e: TextEdit) -> int {
    let a = position_to_offset_spec(s, e.range.start.line as int, e.range.start.character as int);
    let b = position_to_offset_spec(s, e.range.end.line as int, e.range.end.character as int);
    if a <= b {
        b
    } else {
        a
    }
}

/// The text after one provider edit.
pub open spec fn apply_edit_spec(s: Seq<char>, e: TextEdit) -> Seq<char> {
    spliced(s, edit_lo(s, e), edit_hi(s, e), e.new_text@)
}

/// The text after a list of provider edits, each resolved against
/// the text the previous ones produced.
pub open spec fn apply_edits_spec(s: Seq<char>, es: Seq<TextEdit>) -> Seq<char>
    decreases es.len(),
{
    if es.len() == 0 {
        s
    } else {
        apply_edits_spec(apply_edit_spec(s, es[0]), es.skip(1))
    }
}

pub proof fn lemma_apply_edits_push(s: Seq<char>, es: Seq<TextEdit>, e: TextEdit)
    ensures
        apply_edits_spec(s, es.push(e)) == apply_edit_spec(apply_edits_spec(s, es), e),
    decreases es.len(),
{
    if es.len() == 0 {
        assert(es.push(e)[0] == e);
        assert(es.push(e).skip(1) =~= Seq::<TextEdit>::empty());
        assert(apply_edits_spec(apply_edit_spec(s, e), Seq::<TextEdit>::empty()) == apply_edit_spec(
            s,
            e,
        ));
    } else {
        assert(es.push(e)[0] == es[0]);
        assert(es.push(e).skip(1) =~= es.skip(1).push(e));
        lemma_apply_edits_push(apply_edit_spec(s, es[0]), es.skip(1), e);
    }
}

fn str_has_prefix(s: &str, p: &str) -> (r: bool)
    ensures
        r == (p@.len() <= s@.len() && s@.take(p@.len() as int) == p@),
{
    let n = p.unicode_len();
    let m = s.unicode_len();
    if n > m {
        return false;
    }
    let mut i: usize = 0;
    while i < n
        invariant
            i <= n,
            n == p@.len(),
            n <= m == s@.len(),
            forall|j: int| 0 <= j < i ==> s@[j] == p@[j],
        decreases n - i,
    {
        let a = s.get_char(i);
        let b = p.get_char(i);
        if a != b {
            return false;
        }
        i = i + 1;
    }
    proof {
        assert(s@.take(p@.len() as int) =~= p@);
    }
    true
}

impl<S: LineShaper> InputState<S> {
    /// Decides, after an edit, whether to issue a completion request:
    /// `range` is the replaced byte range of the edit and
    /// `is_trigger` what the provider's trigger test said of it. The
    /// returned request carries a fresh id and the query between the
    /// trigger offset and the cursor; issuing it supersedes any
    /// earlier completion request.
    pub fn handle_completion_trigger(&mut self, range: Selection, is_trigger: bool) -> (r: Option<
        CompletionRequest,
    >)
        requires
            old(self).wf(),
        ensures
            final(self).wf(),
            final(self).text@ == old(self).text@,
            final(self).text_wrapper == old(self).text_wrapper,
            final(self).selected_range == old(self).selected_range,
            final(self).markers == old(self).markers,
            final(self).hover_definition == old(self).hover_definition,
            final(self).pending_definition == old(self).pending_definition,
            final(self).completion_inserting == old(self).completion_inserting,
            ({
                let so_raw: usize = match old(self).context_menu {
                    Option::Some(ContextMenu::Completion(m)) => m.trigger_start_offset,
                    _ => range.end,
                };
                let cur = old(self).selected_range.end;
                if old(self).completion_inserting || !is_trigger || cur < so_raw {
                    &&& r is None
                    &&& final(self).context_menu == old(self).context_menu
                    &&& final(self).next_request_id == old(self).next_request_id
                } else {
                    let q = completion_query(old(self).text@, so_raw as int, cur as int);
                    &&& final(self).next_request_id == (if old(self).next_request_id < u64::MAX {
                        old(self).next_request_id + 1
                    } else {
                        old(self).next_request_id as int
                    })
                    &&& r matches Some(req) && req.id == old(self).next_request_id && req.offset
                        == cur && req.context.trigger_kind
                        == CompletionTriggerKind::TriggerCharacter
                        && (req.context.trigger_character matches Some(t) && t@ == q)
                    &&& final(self).context_menu matches Some(ContextMenu::Completion(m))
                        && m.request_id == old(self).next_request_id && m.trigger_start_offset
                        == clip_left(old(self).text@, so_raw as int) && m.query@ == q
                        && m.items@.len() == 0 && m.selected_ix == 0 && m.open == false
                }
            }),
    {
        if self.completion_inserting {
            return None;
        }
        if !is_trigger {
            return None;
        }
        let new_offset = self.cursor();
        let start_offset: usize = match &self.context_menu {
            Some(ContextMenu::Completion(menu)) => menu.trigger_start_offset,
            _ => range.end,
        };
        if new_offset < start_offset {
            return None;
        }
        let ghost s = self.text@;
        let so = self.text.clip_offset(start_offset, Bias::Left);
        proof {
            lemma_clip_left_mono(s, start_offset as int, new_offset as int);
            lemma_char_of_byte_floor(s, start_offset as int);
            lemma_char_of_byte_floor(s, new_offset as int);
            lemma_boundary_iff_floor_exact(s, new_offset as int);
            lemma_char_of_byte_at_boundary(s, char_of_byte(s, start_offset as int));
            assert(clip_left(s, new_offset as int) == new_offset as int);
            assert(char_of_byte(s, so as int) == char_of_byte(s, start_offset as int));
        }
        let query = self.text.slice_trimmed(Selection::new(so, new_offset));
        let id = self.next_request_id;
        self.next_request_id = if id < u64::MAX {
            id + 1
        } else {
            id
        };
        let menu = CompletionMenu {
            request_id: id,
            trigger_start_offset: so,
            query: query.clone(),
            items: Vec::new(),
            selected_ix: 0,
            open: false,
        };
        self.context_menu = Some(ContextMenu::Completion(menu));
        Some(
            CompletionRequest {
                id,
                offset: new_offset,
                context: CompletionContext {
                    trigger_kind: CompletionTriggerKind::TriggerCharacter,
                    trigger_character: Some(query),
                },
            },
        )
    }

    /// Accepts a completion response only while its request id is
    /// the newest one; anything else is stale and dropped unseen. An
    /// empty result hides the menu, a non-empty one shows it.
    pub fn apply_completion_response(&mut self, id: u64, items: Vec<CompletionItem>) -> (applied:
        bool)
        requires
            old(self).wf(),
        ensures
            final(self).wf(),
            final(self).text@ == old(self).text@,
            final(self).text_wrapper == old(self).text_wrapper,
            final(self).selected_range == old(self).selected_range,
            final(self).markers == old(self).markers,
            final(self).hover_definition == old(self).hover_definition,
            final(self).pending_definition == old(self).pending_definition,
            final(self).next_request_id == old(self).next_request_id,
            ({
                match old(self).context_menu {
                    Option::Some(ContextMenu::Completion(m)) => {
                        if m.request_id == id {
                            &&& applied == true
                            &&& (items@.len() == 0 ==> final(self).context_menu is None)
                            &&& (items@.len() > 0 ==> (final(self).context_menu matches Some(
                                ContextMenu::Completion(m2),
                            ) && m2.request_id == id && m2.trigger_start_offset
                                == m.trigger_start_offset && m2.query@ == m.query@ && m2.items
                                == items && m2.selected_ix == 0 && m2.open == true))
                        } else {
                            applied == false && final(self).context_menu == old(
                                self,
                            ).context_menu
                        }
                    },
                    _ => applied == false && final(self).context_menu == old(self).context_menu,
                }
            }),
    {
        let info: Option<(usize, String)> = match &self.context_menu {
            Some(ContextMenu::Completion(m)) => {
                if m.request_id == id {
                    Some((m.trigger_start_offset, m.query.clone()))
                } else {
                    None
                }
            },
            _ => None,
        };
        match info {
            None => false,
            Some((trigger_start_offset, query)) => {
                if items.len() == 0 {
                    self.context_menu = None;
                } else {
                    self.context_menu = Some(
                        ContextMenu::Completion(
                            CompletionMenu {
                                request_id: id,
                                trigger_start_offset,
                                query,
                                items,
                                selected_ix: 0,
                                open: true,
                            },
                        ),
                    );
                }
                true
            },
        }
    }

    /// Drops whatever popover is up.
    pub fn hide_context_menu(&mut self)
        ensures
            final(self).context_menu is None,
            final(self).text@ == old(self).text@,
            final(self).text_wrapper == old(self).text_wrapper,
            final(self).selected_range == old(self).selected_range,
            final(self).markers == old(self).markers,
            final(self).hover_definition == old(self).hover_definition,
            final(self).pending_definition == old(self).pending_definition,
            final(self).next_request_id == old(self).next_request_id,
            final(self).completion_inserting == old(self).completion_inserting,
    {
        self.context_menu = None;
    }

    /// Whether a popover is up and visible.
    pub fn is_context_menu_open(&self) -> (r: bool)
        ensures
            r == match self.context_menu {
                Option::Some(menu) => menu.spec_is_open(),
                Option::None => false,
            },
    {
        match &self.context_menu {
            Some(menu) => menu.is_open(),
            None => false,
        }
    }

    /// Handles an action aimed at the open popover; returns whether
    /// it was consumed. Cancel hides the menu; the select actions
    /// move its selection; confirm applies the selected completion
    /// (or the selected code action's edits) and hides the menu.
    pub fn handle_action_for_context_menu(&mut self, action: crate::actions::InputAction) -> (r:
        bool)
        requires
            old(self).wf(),
        ensures
            final(self).wf(),
            final(self).markers == old(self).markers,
            final(self).hover_definition == old(self).hover_definition,
            final(self).pending_definition == old(self).pending_definition,
            final(self).next_request_id == old(self).next_request_id,
            ({
                let fin = *final(self);
                let pre = *old(self);
                match pre.context_menu {
                    Option::None => !r && fin == pre,
                    Option::Some(menu) => {
                        if !menu.spec_is_open() {
                            !r && fin == pre
                        } else {
                            match action {
                                crate::actions::InputAction::Cancel => {
                                    &&& r
                                    &&& fin.context_menu is None
                                    &&& fin.text@ == pre.text@
                                    &&& fin.selected_range == pre.selected_range
                                },
                                crate::actions::InputAction::SelectLeft => !r && fin == pre,
                                crate::actions::InputAction::SelectRight => !r && fin == pre,
                                _ => r,
                            }
                        }
                    },
                }
            }),
            // moving the selection keeps everything but the index
            ({
                match old(self).context_menu {
                    Option::Some(ContextMenu::Completion(m)) => {
                        (m.open && (action == crate::actions::InputAction::SelectNext || action
                            == crate::actions::InputAction::SelectPrev)) ==> {
                            &&& final(self).text@ == old(self).text@
                            &&& final(self).selected_range == old(self).selected_range
                            &&& final(self).context_menu matches Some(ContextMenu::Completion(m2))
                                && m2.request_id == m.request_id && m2.items == m.items && m2.open
                                && m2.selected_ix == menu_step(
                                m.selected_ix,
                                m.items@.len() as int,
                                action == crate::actions::InputAction::SelectNext,
                            )
                        }
                    },
                    _ => true,
                }
            }),
            ({
                match old(self).context_menu {
                    Option::Some(ContextMenu::CodeAction(m)) => {
                        (m.open && (action == crate::actions::InputAction::SelectNext || action
                            == crate::actions::InputAction::SelectPrev)) ==> {
                            &&& final(self).text@ == old(self).text@
                            &&& final(self).selected_range == old(self).selected_range
                            &&& final(self).context_menu matches Some(ContextMenu::CodeAction(m2))
                                && m2.request_id == m.request_id && m2.actions == m.actions
                                && m2.open && m2.selected_ix == menu_step(
                                m.selected_ix,
                                m.actions@.len() as int,
                                action == crate::actions::InputAction::SelectNext,
                            )
                        }
                    },
                    _ => true,
                }
            }),
            // confirming a completion inserts the selected entry over
            // the query range and hides the menu
            ({
                match old(self).context_menu {
                    Option::Some(ContextMenu::Completion(m)) => {
                        (m.open && (action matches crate::actions::InputAction::Confirm(_))
                            && m.selected_ix < m.items@.len()) ==> {
                            let item = m.items@[m.selected_ix as int];
                            let r0 = Selection {
                                start: m.trigger_start_offset,
                                end: old(self).selected_range.end,
                            };
                            &&& final(self).context_menu is None
                            &&& final(self).text@ == spliced(
                                old(self).text@,
                                norm_lo(r0) as int,
                                norm_hi(r0) as int,
                                item.insert_text@,
                            )
                        }
                    },
                    _ => true,
                }
            }),
            // confirming a code action applies its edits and hides
            // the menu
            ({
                match old(self).context_menu {
                    Option::Some(ContextMenu::CodeAction(m)) => {
                        (m.open && (action matches crate::actions::InputAction::Confirm(_))
                            && m.selected_ix < m.actions@.len()) ==> {
                            &&& final(self).context_menu is None
                            &&& final(self).text@ == apply_edits_spec(
                                old(self).text@,
                                m.actions@[m.selected_ix as int].edits@,
                            )
                        }
                    },
                    _ => true,
                }
            }),
    {
        let taken = self.context_menu.take();
        match taken {
            None => false,
            Some(ContextMenu::Completion(m)) => {
                if !m.open {
                    self.context_menu = Some(ContextMenu::Completion(m));
                    return false;
                }
                match action {
                    crate::actions::InputAction::Cancel => true,
                    crate::actions::InputAction::SelectNext => {
                        let n = m.items.len();
                        let ix = step_index(m.selected_ix, n, true);
                        self.context_menu = Some(
                            ContextMenu::Completion(
                                CompletionMenu {
                                    request_id: m.request_id,
                                    trigger_start_offset: m.trigger_start_offset,
                                    query: m.query,
                                    items: m.items,
                                    selected_ix: ix,
                                    open: true,
                                },
                            ),
                        );
                        true
                    },
                    crate::actions::InputAction::SelectPrev => {
                        let n = m.items.len();
                        let ix = step_index(m.selected_ix, n, false);
                        self.context_menu = Some(
                            ContextMenu::Completion(
                                CompletionMenu {
                                    request_id: m.request_id,
                                    trigger_start_offset: m.trigger_start_offset,
                                    query: m.query,
                                    items: m.items,
                                    selected_ix: ix,
                                    open: true,
                                },
                            ),
                        );
                        true
                    },
                    crate::actions::InputAction::Confirm(_) => {
                        if m.selected_ix < m.items.len() {
                            let cur = self.cursor();
                            let item = &m.items[m.selected_ix];
                            self.replace_text_in_range(
                                Some(Selection::new(m.trigger_start_offset, cur)),
                                item.insert_text.as_str(),
                            );
                        }
                        true
                    },
                    _ => {
                        self.context_menu = Some(ContextMenu::Completion(m));
                        false
                    },
                }
            },
            Some(ContextMenu::CodeAction(m)) => {
                if !m.open {
                    self.context_menu = Some(ContextMenu::CodeAction(m));
                    return false;
                }
                match action {
                    crate::actions::InputAction::Cancel => true,
                    crate::actions::InputAction::SelectNext => {
                        let n = m.actions.len();
                        let ix = step_index(m.selected_ix, n, true);
                        self.context_menu = Some(
                            ContextMenu::CodeAction(
                                CodeActionMenu {
                                    request_id: m.request_id,
                                    actions: m.actions,
                                    selected_ix: ix,
                                    open: true,
                                },
                            ),
                        );
                        true
                    },
                    crate::actions::InputAction::SelectPrev => {
                        let n = m.actions.len();
                        let ix = step_index(m.selected_ix, n, false);
                        self.context_menu = Some(
                            ContextMenu::CodeAction(
                                CodeActionMenu {
                                    request_id: m.request_id,
                                    actions: m.actions,
                                    selected_ix: ix,
                                    open: true,
                                },
                            ),
                        );
                        true
                    },
                    crate::actions::InputAction::Confirm(_) => {
                        if m.selected_ix < m.actions.len() {
                            let action_item = &m.actions[m.selected_ix];
                            self.apply_lsp_edits(&action_item.edits);
                        }
                        true
                    },
                    _ => {
                        self.context_menu = Some(ContextMenu::CodeAction(m));
                        false
                    },
                }
            },
        }
    }

    /// Starts a code-action round for the current selection: opens an
    /// empty code-action menu stamped with a fresh id and returns that
    /// id, which the host attaches to the request it sends every
    /// registered provider. Starting a new round supersedes the
    /// previous one.
    pub fn handle_code_action_trigger(&mut self) -> (id: u64)
        requires
            old(self).wf(),
        ensures
            final(self).wf(),
            final(self).text@ == old(self).text@,
            final(self).text_wrapper == old(self).text_wrapper,
            final(self).selected_range == old(self).selected_range,
            final(self).markers == old(self).markers,
            final(self).hover_definition == old(self).hover_definition,
            final(self).pending_definition == old(self).pending_definition,
            id == old(self).next_request_id,
            final(self).next_request_id == (if old(self).next_request_id < u64::MAX {
                old(self).next_request_id + 1
            } else {
                old(self).next_request_id as int
            }),
            final(self).context_menu matches Some(ContextMenu::CodeAction(m)) && m.request_id
                == id && m.actions@.len() == 0 && m.selected_ix == 0 && m.open == false,
    {
        let id = self.next_request_id;
        self.next_request_id = if id < u64::MAX {
            id + 1
        } else {
            id
        };
        self.context_menu = Some(
            ContextMenu::CodeAction(
                CodeActionMenu { request_id: id, actions: Vec::new(), selected_ix: 0, open: false },
            ),
        );
        id
    }

    /// Aggregates one provider's code actions into the menu of the
    /// round `id`; responses of superseded rounds are dropped, and a
    /// provider that fails simply never contributes. The menu shows
    /// as soon as any actions arrived.
    pub fn apply_code_actions_response(&mut self, id: u64, actions: Vec<CodeAction>) -> (applied:
        bool)
        requires
            old(self).wf(),
        ensures
            final(self).wf(),
            final(self).text@ == old(self).text@,
            final(self).text_wrapper == old(self).text_wrapper,
            final(self).selected_range == old(self).selected_range,
            final(self).markers == old(self).markers,
            final(self).hover_definition == old(self).hover_definition,
            final(self).pending_definition == old(self).pending_definition,
            final(self).next_request_id == old(self).next_request_id,
            ({
                match old(self).context_menu {
                    Option::Some(ContextMenu::CodeAction(m)) => {
                        if m.request_id == id {
                            &&& applied == true
                            &&& (final(self).context_menu matches Some(ContextMenu::CodeAction(m2))
                                && m2.request_id == id && m2.actions@ == m.actions@ + actions@
                                && m2.selected_ix == m.selected_ix && m2.open == (m.open
                                || actions@.len() > 0))
                        } else {
                            applied == false && final(self).context_menu == old(self).context_menu
                        }
                    },
                    _ => applied == false && final(self).context_menu == old(self).context_menu,
                }
            }),
    {
        let taken = self.context_menu.take();
        match taken {
            Some(ContextMenu::CodeAction(m)) => {
                if m.request_id == id {
                    let mut incoming = actions;
                    let had_any = incoming.len() > 0;
                    let mut merged = m.actions;
                    merged.append(&mut incoming);
                    self.context_menu = Some(
                        ContextMenu::CodeAction(
                            CodeActionMenu {
                                request_id: m.request_id,
                                actions: merged,
                                selected_ix: m.selected_ix,
                                open: m.open || had_any,
                            },
                        ),
                    );
                    true
                } else {
                    self.context_menu = Some(ContextMenu::CodeAction(m));
                    false
                }
            },
            other => {
                self.context_menu = other;
                false
            },
        }
    }

    /// Applies a list of provider text edits in order; each edit's
    /// positions are resolved against the text the previous edits
    /// produced.
    pub fn apply_lsp_edits(&mut self, text_edits: &Vec<TextEdit>)
        requires
            old(self).wf(),
        ensures
            final(self).wf(),
            final(self).text@ == apply_edits_spec(old(self).text@, text_edits@),
            final(self).markers == old(self).markers,
            final(self).context_menu == old(self).context_menu,
            final(self).hover_definition == old(self).hover_definition,
            final(self).pending_definition == old(self).pending_definition,
            final(self).next_request_id == old(self).next_request_id,
            final(self).completion_inserting == old(self).completion_inserting,
    {
        let n = text_edits.len();
        let mut i: usize = 0;
        proof {
            assert(text_edits@.take(0) =~= Seq::<TextEdit>::empty());
        }
        while i < n
            invariant
                n == text_edits@.len(),
                i <= n,
                self.wf(),
                self.text@ == apply_edits_spec(old(self).text@, text_edits@.take(i as int)),
                self.markers == old(self).markers,
                self.context_menu == old(self).context_menu,
                self.hover_definition == old(self).hover_definition,
                self.pending_definition == old(self).pending_definition,
                self.next_request_id == old(self).next_request_id,
                self.completion_inserting == old(self).completion_inserting,
            decreases n - i,
        {
            let edit = &text_edits[i];
            let start = self.text.position_to_offset(&edit.range.start);
            let end = self.text.position_to_offset(&edit.range.end);
            self.replace_text_in_range(Some(Selection::new(start, end)), edit.new_text.as_str());
            proof {
                assert(text_edits@.take(i as int + 1) =~= text_edits@.take(i as int).push(
                    text_edits@[i as int],
                ));
                lemma_apply_edits_push(old(self).text@, text_edits@.take(i as int),
                    text_edits@[i as int]);
            }
            i = i + 1;
        }
        proof {
            assert(text_edits@.take(n as int) =~= text_edits@);
        }
    }

    /// Decides whether to look up definitions for the symbol under
    /// the pointer: while the pointer stays on the symbol of the
    /// current lookup nothing new is issued; otherwise a fresh
    /// request supersedes any in-flight one.
    pub fn handle_hover_definition(&mut self, offset: usize) -> (r: Option<DefinitionRequest>)
        requires
            old(self).wf(),
        ensures
            final(self).wf(),
            final(self).text@ == old(self).text@,
            final(self).text_wrapper == old(self).text_wrapper,
            final(self).selected_range == old(self).selected_range,
            final(self).markers == old(self).markers,
            final(self).context_menu == old(self).context_menu,
            final(self).hover_definition == old(self).hover_definition,
            final(self).completion_inserting == old(self).completion_inserting,
            ({
                let same = match old(self).hover_definition {
                    Option::Some(hd) => hd.symbol_range.start <= offset < hd.symbol_range.end,
                    Option::None => false,
                };
                if same {
                    &&& r is None
                    &&& final(self).pending_definition == old(self).pending_definition
                    &&& final(self).next_request_id == old(self).next_request_id
                } else {
                    let req = DefinitionRequest { id: old(self).next_request_id, offset };
                    &&& r == Some(req)
                    &&& final(self).pending_definition == Some(
                        (req, symbol_range_at(old(self).text@, offset)),
                    )
                    &&& final(self).next_request_id == (if old(self).next_request_id < u64::MAX {
                        old(self).next_request_id + 1
                    } else {
                        old(self).next_request_id as int
                    })
                }
            }),
    {
        let same = match &self.hover_definition {
            Some(hd) => hd.is_same(offset),
            None => false,
        };
        if same {
            return None;
        }
        let symbol_range = match self.text.word_range(offset) {
            Some(range) => range,
            None => Selection::new(offset, offset),
        };
        let id = self.next_request_id;
        self.next_request_id = if id < u64::MAX {
            id + 1
        } else {
            id
        };
        let req = DefinitionRequest { id, offset };
        self.pending_definition = Some((req, symbol_range));
        Some(req)
    }

    /// Pointer movement: with the secondary modifier held it asks for
    /// the definition under the pointer, without it the hovered
    /// definition is dropped.
    pub fn handle_mouse_move(&mut self, offset: usize, secondary: bool) -> (r: Option<
        DefinitionRequest,
    >)
        requires
            old(self).wf(),
        ensures
            final(self).wf(),
            final(self).text@ == old(self).text@,
            final(self).text_wrapper == old(self).text_wrapper,
            final(self).selected_range == old(self).selected_range,
            final(self).markers == old(self).markers,
            final(self).context_menu == old(self).context_menu,
            final(self).completion_inserting == old(self).completion_inserting,
            !secondary ==> {
                &&& r is None
                &&& final(self).hover_definition is None
                &&& final(self).pending_definition == old(self).pending_definition
                &&& final(self).next_request_id == old(self).next_request_id
            },
            secondary ==> final(self).hover_definition == old(self).hover_definition && ({
                let same = match old(self).hover_definition {
                    Option::Some(hd) => hd.symbol_range.start <= offset < hd.symbol_range.end,
                    Option::None => false,
                };
                if same {
                    &&& r is None
                    &&& final(self).pending_definition == old(self).pending_definition
                    &&& final(self).next_request_id == old(self).next_request_id
                } else {
                    let req = DefinitionRequest { id: old(self).next_request_id, offset };
                    &&& r == Some(req)
                    &&& final(self).pending_definition == Some(
                        (req, symbol_range_at(old(self).text@, offset)),
                    )
                    &&& final(self).next_request_id == (if old(self).next_request_id < u64::MAX {
                        old(self).next_request_id + 1
                    } else {
                        old(self).next_request_id as int
                    })
                }
            }),
    {
        if secondary {
            self.handle_hover_definition(offset)
        } else {
            self.hover_definition = None;
            None
        }
    }

    /// Accepts a definition response only while its request id is
    /// the newest one. No locations clears the lookup; otherwise the
    /// lookup is attached to the symbol range, preferring the origin
    /// range the provider reported.
    pub fn apply_definition_response(&mut self, id: u64, locations: Vec<LocationLink>) -> (applied:
        bool)
        requires
            old(self).wf(),
        ensures
            final(self).wf(),
            final(self).text@ == old(self).text@,
            final(self).text_wrapper == old(self).text_wrapper,
            final(self).selected_range == old(self).selected_range,
            final(self).markers == old(self).markers,
            final(self).context_menu == old(self).context_menu,
            final(self).next_request_id == old(self).next_request_id,
            final(self).completion_inserting == old(self).completion_inserting,
            ({
                match old(self).pending_definition {
                    Option::Some(pending) => {
                        if pending.0.id == id {
                            &&& applied == true
                            &&& final(self).pending_definition is None
                            &&& (locations@.len() == 0 ==> final(self).hover_definition is None)
                            &&& (locations@.len() > 0 ==> (final(self).hover_definition matches Some(
                                hd,
                            ) && hd.locations == locations && hd.symbol_range == (
                            match locations@[0].origin_selection_range {
                                Option::Some(pr) => Selection {
                                    start: position_to_offset_spec(
                                        old(self).text@,
                                        pr.start.line as int,
                                        pr.start.character as int,
                                    ) as usize,
                                    end: position_to_offset_spec(
                                        old(self).text@,
                                        pr.end.line as int,
                                        pr.end.character as int,
                                    ) as usize,
                                },
                                Option::None => pending.1,
                            })))
                        } else {
                            &&& applied == false
                            &&& final(self).pending_definition == old(self).pending_definition
                            &&& final(self).hover_definition == old(self).hover_definition
                        }
                    },
                    Option::None => {
                        &&& applied == false
                        &&& final(self).pending_definition == old(self).pending_definition
                        &&& final(self).hover_definition == old(self).hover_definition
                    },
                }
            }),
    {
        let (req, fallback) = match self.pending_definition {
            Some(pending) => pending,
            None => {
                return false;
            },
        };
        if req.id != id {
            return false;
        }
        self.pending_definition = None;
        if locations.len() == 0 {
            self.hover_definition = None;
            return true;
        }
        let origin = locations[0].origin_selection_range;
        let symbol_range = match origin {
            Some(pr) => {
                let s = self.text.position_to_offset(&pr.start);
                let e = self.text.position_to_offset(&pr.end);
                Selection::new(s, e)
            },
            None => fallback,
        };
        self.hover_definition = Some(HoverDefinition::new(symbol_range, locations));
        true
    }

    /// A secondary click on the hovered symbol follows its first
    /// definition: a web link is handed back for the host to open,
    /// anything else moves the cursor onto the definition's range.
    pub fn handle_click_hover_definition(&mut self, offset: usize, secondary: bool) -> (r:
        ClickOutcome)
        requires
            old(self).wf(),
        ensures
            final(self).wf(),
            final(self).text@ == old(self).text@,
            final(self).markers == old(self).markers,
            final(self).context_menu == old(self).context_menu,
            final(self).hover_definition == old(self).hover_definition,
            final(self).pending_definition == old(self).pending_definition,
            final(self).next_request_id == old(self).next_request_id,
            ({
                let relevant = secondary && (match old(self).hover_definition {
                    Option::Some(hd) => hd.symbol_range.start <= offset < hd.symbol_range.end
                        && hd.locations@.len() > 0,
                    Option::None => false,
                });
                if !relevant {
                    r is NotHandled && final(self).selected_range == old(self).selected_range
                } else {
                    let loc = old(self).hover_definition->Some_0.locations@[0];
                    if is_web_url(loc.target_uri@) {
                        &&& r matches ClickOutcome::OpenUrl(u) && u@ == loc.target_uri@
                        &&& final(self).selected_range == old(self).selected_range
                    } else {
                        &&& r is Moved
                        &&& final(self).selected_range.start == clip_left(
                            old(self).text@,
                            position_to_offset_spec(
                                old(self).text@,
                                loc.target_range.start.line as int,
                                loc.target_range.start.character as int,
                            ),
                        )
                        &&& final(self).selected_range.end == clip_left(
                            old(self).text@,
                            position_to_offset_spec(
                                old(self).text@,
                                loc.target_range.end.line as int,
                                loc.target_range.end.character as int,
                            ),
                        )
                    }
                }
            }),
    {
        if !secondary {
            return ClickOutcome::NotHandled;
        }
        let (same, has_locations) = match &self.hover_definition {
            Some(hd) => {
                let s = hd.is_same(offset);
                (s, hd.locations.len() > 0)
            },
            None => (false, false),
        };
        if !same || !has_locations {
            return ClickOutcome::NotHandled;
        }
        let (uri, target_start, target_end) = match &self.hover_definition {
            Some(hd) => {
                let loc = &hd.locations[0];
                (loc.target_uri.clone(), loc.target_range.start, loc.target_range.end)
            },
            None => {
                return ClickOutcome::NotHandled;
            },
        };
        proof {
            reveal_strlit("https://");
            reveal_strlit("http://");
        }
        let is_https = str_has_prefix(uri.as_str(), "https://");
        let is_http = str_has_prefix(uri.as_str(), "http://");
        if is_https || is_http {
            return ClickOutcome::OpenUrl(uri);
        }
        let start = self.text.position_to_offset(&target_start);
        let end = self.text.position_to_offset(&target_end);
        self.move_to(start);
        self.select_to(end);
        ClickOutcome::Moved
    }
}

/// One step of a menu selection: down clamps at the last entry, up
/// at the first.
pub open spec fn menu_step(ix: usize, n: int, down: bool) -> usize {
    if down {
        if ix as int + 1 < n {
            (ix + 1) as usize
        } else {
            if n > 0 {
                (n - 1) as usize
            } else {
                0usize
            }
        }
    } else {
        if ix > 0 {
            (ix - 1) as usize
        } else {
            0usize
        }
    }
}

fn step_index(ix: usize, n: usize, down: bool) -> (r: usize)
    ensures
        r == menu_step(ix, n as int, down),
{
    if down {
        if n == 0 {
            0
        } else if ix < n - 1 {
            ix + 1
        } else {
            n - 1
        }
    } else {
        if ix > 0 {
            ix - 1
        } else {
            0
        }
    }
}

/// `resolved` is `source` with its byte range resolved against
/// `text`.
pub open spec fn marker_resolved(resolved: Marker, source: Marker, text: Seq<char>) -> bool {
    &&& resolved.severity == source.severity
    &&& resolved.start == source.start
    &&& resolved.end == source.end
    &&& resolved.message@ == source.message@
    &&& resolved.range == Some(
        Selection {
            start: line_column_offset(text, source.start) as usize,
            end: line_column_offset(text, source.end) as usize,
        },
    )
}

} // verus!
