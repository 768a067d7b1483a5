//! The actions of the file manager for AppImages, kept in the user's own list of actions: only the
//! two managed actions are ever replaced, every other byte of the list stays.

use vstd::prelude::*;
use vstd::string::*;
use crate::inspector::{goes_up, named_parts, parent_part, path_parts};
use crate::paths::byte_parts;
use crate::paths::{copy_bytes, from_utf8, is_absolute_path, same_bytes, FilePath};
use crate::text::{characters, contains_part, text_is, text_of, trim};
use crate::text::{finishes_with, holds_part, optional_text, trimmed};

verus! {

/// How large a list of actions may be.
pub const MAX_UCA_BYTES: usize = 1048576;

/// The identifier of the action that adds to the applications.
pub open spec fn applications_id() -> Seq<char> {
    "buzzardos-appimage-add-applications-v1"@
}

/// The identifier of the action that adds to the desktop.
pub open spec fn desktop_id() -> Seq<char> {
    "buzzardos-appimage-add-desktop-v1"@
}

/// Whether an identifier is that of a managed action.
pub open spec fn is_managed(id: Seq<char>) -> bool {
    id == applications_id() || id == desktop_id()
}

/// Whether an identifier is that of a managed action.
fn managed(id: &String) -> (is: bool)
    ensures
        is == is_managed(id@),
{
    text_is(id, "buzzardos-appimage-add-applications-v1") || text_is(
        id,
        "buzzardos-appimage-add-desktop-v1",
    )
}

/// Why a list of actions is not used.
#[derive(Debug, Clone, Copy, PartialEq, Eq, Structural)]
pub enum ActionsError {
    /// It holds a byte that is zero.
    Nul,
    /// It declares a document type or an entity.
    Declarations,
    /// It is not well-formed.
    Malformed,
    /// Its outermost element is not a list of actions.
    Root,
    /// Its outermost element does not end.
    Unclosed,
    /// Managed actions overlap.
    Overlap,
}

/// Why the actions were not put into the user's list.
#[derive(Debug, Clone, Copy, PartialEq, Eq, Structural)]
pub enum ThunarActionInstallError {
    /// The directory for settings is not an absolute, normalized path.
    InvalidConfigBase,
    /// A list is too large.
    TooLarge,
    /// The user's list is not text.
    UserNotText,
    /// The user's list is not usable.
    InvalidUserXml(ActionsError),
    /// The managed list is not text.
    TemplateNotText,
    /// The managed list is not usable.
    InvalidTemplate(ActionsError),
    /// The managed list is not made of the two managed actions.
    NotManaged,
    /// The action that adds to the applications is missing or another one.
    ApplicationsAction,
    /// The action that adds to the desktop is missing or another one.
    DesktopAction,
}

/// Something inside an action.
#[derive(Debug)]
pub struct XmlField {
    pub name: String,
    pub text: Option<String>,
}

/// Something inside the outermost element.
#[derive(Debug)]
pub struct XmlNode {
    pub name: String,
    pub namespaced: bool,
    pub range: core::ops::Range<usize>,
    pub fields: Vec<XmlField>,
}

/// The outermost element of a document.
#[derive(Debug)]
pub struct XmlRoot {
    pub name: String,
    pub namespaced: bool,
    pub range: core::ops::Range<usize>,
    pub children: Vec<XmlNode>,
}

/// What [`XmlField`] is a model of.
pub struct FieldView {
    pub name: Seq<char>,
    pub text: Option<Seq<char>>,
}

/// What [`XmlNode`] is a model of.
pub struct NodeView {
    pub name: Seq<char>,
    pub namespaced: bool,
    pub start: int,
    pub end: int,
    pub fields: Seq<FieldView>,
}

/// What [`XmlRoot`] is a model of.
pub struct RootView {
    pub name: Seq<char>,
    pub namespaced: bool,
    pub start: int,
    pub end: int,
    pub children: Seq<NodeView>,
}

impl View for XmlField {
    type V = FieldView;

    open spec fn view(&self) -> FieldView {
        FieldView { name: self.name@, text: optional_text(self.text) }
    }
}

/// What is inside an action, as a sequence.
pub open spec fn field_views(fields: Seq<XmlField>) -> Seq<FieldView> {
    fields.map_values(|field: XmlField| field@)
}

impl View for XmlNode {
    type V = NodeView;

    open spec fn view(&self) -> NodeView {
        NodeView {
            name: self.name@,
            namespaced: self.namespaced,
            start: self.range.start as int,
            end: self.range.end as int,
            fields: field_views(self.fields@),
        }
    }
}

/// What is inside the outermost element, as a sequence.
pub open spec fn node_views(nodes: Seq<XmlNode>) -> Seq<NodeView> {
    nodes.map_values(|node: XmlNode| node@)
}

impl View for XmlRoot {
    type V = RootView;

    open spec fn view(&self) -> RootView {
        RootView {
            name: self.name@,
            namespaced: self.namespaced,
            start: self.range.start as int,
            end: self.range.end as int,
            children: node_views(self.children@),
        }
    }
}

/// The outermost element of the document that `roxmltree::Document::parse` makes of a text.
pub uninterp spec fn xml_root(text: Seq<char>) -> Option<RootView>;

/// `roxmltree::Document::parse`: the outermost element of a document, with what is inside it and
/// inside that, or nothing where the text is no well-formed document. It depends on the text
/// alone. The places of an element are those of its bytes in the text; what is no element has an
/// empty name.
#[verifier::external_body]
fn parse_xml(xml: &str) -> (root: Option<XmlRoot>)
    ensures
        match root {
            Some(root) => xml_root(xml@) == Some(root@) && root.range.start <= root.range.end
                <= vstd::utf8::encode_utf8(xml@).len() && forall|at: int|
                0 <= at < root.children@.len() ==> (#[trigger] root.children@[at]).range.start
                    <= root.children@[at].range.end <= vstd::utf8::encode_utf8(xml@).len(),
            None => xml_root(xml@) is None,
        },
{
    let document = roxmltree::Document::parse(xml).ok()?;
    let root = document.root_element();
    let children = root.children().map(|node| XmlNode {
        name: node.tag_name().name().into(),
        namespaced: node.tag_name().namespace().is_some(),
        range: node.range(),
        fields: node.children().map(|field| XmlField {
            name: field.tag_name().name().into(),
            text: field.text().map(String::from) }).collect() }).collect();
    let name = root.tag_name().name().into();
    let namespaced = root.tag_name().namespace().is_some();
    Some(XmlRoot { name, namespaced, range: root.range(), children })
}

/// The text of the first element of that name inside an action, without the white space around it.
pub open spec fn text_in(fields: Seq<FieldView>, name: Seq<char>) -> Option<Seq<char>>
    decreases fields.len(),
{
    if fields.len() == 0 {
        None
    } else if fields[0].name == name {
        match fields[0].text {
            Some(text) => Some(trimmed(text)),
            None => Some(trimmed(seq![])),
        }
    } else {
        text_in(fields.skip(1), name)
    }
}

/// The text of the first element of that name inside an action.
fn child_text(node: &XmlNode, name: &str) -> (text: Option<String>)
    ensures
        optional_text(text) == text_in(node@.fields, name@),
{
    let ghost views = node@.fields;
    let mut at: usize = 0;
    assert(views.skip(0) =~= views);
    while at < node.fields.len()
        invariant
            at <= node.fields.len(),
            views == field_views(node.fields@),
            text_in(views, name@) == text_in(views.skip(at as int), name@),
        decreases node.fields.len() - at,
    {
        let field = &node.fields[at];
        assert(views.skip(at as int)[0] == field@);
        assert(views.skip(at as int).skip(1) =~= views.skip(at + 1));
        if text_is(&field.name, name) {
            let chars = match &field.text {
                Some(text) => characters(text.as_str()),
                None => Vec::new(),
            };
            assert(field.text is None ==> chars@ =~= seq![]);
            return Some(text_of(trim(chars.as_slice()).as_slice()));
        }
        at = at + 1;
    }
    None
}

/// An action of a list.
#[derive(Debug)]
pub struct ParsedAction {
    pub id: String,
    pub start: usize,
    pub end: usize,
    pub name: Option<String>,
    pub command: Option<String>,
    pub patterns: Option<String>,
    pub range_value: Option<String>,
    pub other_files: bool,
}

/// What [`ParsedAction`] is a model of.
pub struct ActionView {
    pub id: Seq<char>,
    pub start: int,
    pub end: int,
    pub name: Option<Seq<char>>,
    pub command: Option<Seq<char>>,
    pub patterns: Option<Seq<char>>,
    pub range_value: Option<Seq<char>>,
    pub other_files: bool,
}

impl View for ParsedAction {
    type V = ActionView;

    open spec fn view(&self) -> ActionView {
        ActionView {
            id: self.id@,
            start: self.start as int,
            end: self.end as int,
            name: optional_text(self.name),
            command: optional_text(self.command),
            patterns: optional_text(self.patterns),
            range_value: optional_text(self.range_value),
            other_files: self.other_files,
        }
    }
}

/// Actions as a sequence.
pub open spec fn action_views(actions: Seq<ParsedAction>) -> Seq<ActionView> {
    actions.map_values(|action: ParsedAction| action@)
}

/// The action that an element describes.
pub open spec fn action_of(node: NodeView) -> ActionView {
    ActionView {
        id: match text_in(node.fields, "unique-id"@) {
            Some(id) => id,
            None => seq![],
        },
        start: node.start,
        end: node.end,
        name: text_in(node.fields, "name"@),
        command: text_in(node.fields, "command"@),
        patterns: text_in(node.fields, "patterns"@),
        range_value: text_in(node.fields, "range"@),
        other_files: text_in(node.fields, "other-files"@) is Some,
    }
}

/// Whether something inside the outermost element is an action.
pub open spec fn is_action() -> spec_fn(NodeView) -> bool {
    |node: NodeView| node.name == "action"@ && !node.namespaced
}

/// The actions of a list.
pub open spec fn actions_of(nodes: Seq<NodeView>) -> Seq<ActionView> {
    nodes.filter(is_action()).map_values(|node: NodeView| action_of(node))
}

/// The action that an element describes.
fn read_action(node: &XmlNode) -> (action: ParsedAction)
    ensures
        action@ == action_of(node@),
{
    let id = match child_text(node, "unique-id") {
        Some(id) => id,
        None => String::new(),
    };
    assert(id@ =~= action_of(node@).id);
    ParsedAction {
        id,
        start: node.range.start,
        end: node.range.end,
        name: child_text(node, "name"),
        command: child_text(node, "command"),
        patterns: child_text(node, "patterns"),
        range_value: child_text(node, "range"),
        other_files: child_text(node, "other-files").is_some(),
    }
}

/// The actions of a list.
fn read_actions(nodes: &Vec<XmlNode>) -> (actions: Vec<ParsedAction>)
    ensures
        action_views(actions@) == actions_of(node_views(nodes@)),
{
    let ghost views = node_views(nodes@);
    let ghost image = |node: NodeView| action_of(node);
    let mut actions: Vec<ParsedAction> = Vec::new();
    let mut at: usize = 0;
    proof {
        crate::lists::filter_ends(views, is_action());
    }
    assert(action_views(actions@) =~= views.take(0).filter(is_action()).map_values(image));
    while at < nodes.len()
        invariant
            at <= nodes.len(),
            views == node_views(nodes@),
            image == (|node: NodeView| action_of(node)),
            action_views(actions@) == views.take(at as int).filter(is_action()).map_values(image),
        decreases nodes.len() - at,
    {
        proof {
            crate::lists::filter_step(views, is_action(), at as int);
        }
        assert(views[at as int] == nodes@[at as int]@);
        let ghost before = action_views(actions@);
        let ghost kept = views.take(at as int).filter(is_action());
        let node = &nodes[at];
        if text_is(&node.name, "action") && !node.namespaced {
            let action = read_action(node);
            actions.push(action);
            assert(action_views(actions@) =~= before.push(action@));
            assert(kept.push(views[at as int]).map_values(image) =~= before.push(action@));
        }
        at = at + 1;
    }
    proof {
        crate::lists::filter_ends(views, is_action());
    }
    actions
}

/// Every action lies where its element does.
proof fn actions_lie_in(nodes: Seq<NodeView>, length: int)
    requires
        forall|at: int|
            0 <= at < nodes.len() ==> 0 <= (#[trigger] nodes[at]).start <= nodes[at].end <= length,
    ensures
        forall|at: int|
            0 <= at < actions_of(nodes).len() ==> 0 <= (#[trigger] actions_of(nodes)[at]).start
                <= actions_of(nodes)[at].end <= length,
    decreases nodes.len(),
{
    reveal(Seq::filter);
    if nodes.len() > 0 {
        let front = nodes.drop_last();
        assert forall|at: int| 0 <= at < front.len() implies 0 <= (#[trigger] front[at]).start
            <= front[at].end <= length by {
            assert(front[at] == nodes[at]);
        }
        actions_lie_in(front, length);
        let image = |node: NodeView| action_of(node);
        assert forall|at: int| 0 <= at < actions_of(nodes).len() implies 0 <= (
        #[trigger] actions_of(nodes)[at]).start <= actions_of(nodes)[at].end <= length by {
            let kept = front.filter(is_action());
            if at < kept.len() {
                assert(actions_of(nodes)[at] == actions_of(front)[at]);
            } else {
                assert(actions_of(nodes)[at] == action_of(nodes.last()));
                assert(nodes.last() == nodes[nodes.len() - 1]);
            }
        }
    }
}

/// A stretch of bytes.
#[derive(Debug, Clone, Copy, PartialEq, Eq, Structural)]
pub struct Span {
    pub start: usize,
    pub end: usize,
}

/// Whether a byte is white space.
pub open spec fn is_blank(byte: u8) -> bool {
    byte == 32 || byte == 9 || byte == 10 || byte == 12 || byte == 13
}

/// Whether all bytes of a stretch are white space.
pub open spec fn all_blank(bytes: Seq<u8>, start: int, end: int) -> bool {
    forall|at: int| start <= at < end ==> is_blank(#[trigger] bytes[at])
}

/// Where the line begins that the byte before `at` is in.
pub open spec fn line_start(bytes: Seq<u8>, at: int) -> int
    decreases at,
{
    if at <= 0 {
        0
    } else if bytes[at - 1] == 10 {
        at
    } else {
        line_start(bytes, at - 1)
    }
}

/// Where the line ends that the byte at `at` is in, unless it is the last one.
pub open spec fn line_end(bytes: Seq<u8>, at: int) -> Option<int>
    decreases bytes.len() - at,
{
    if at >= bytes.len() {
        None
    } else if bytes[at] == 10 {
        Some(at)
    } else {
        line_end(bytes, at + 1)
    }
}

/// A stretch of bytes together with the lines that nothing else is on.
pub open spec fn whole_line(bytes: Seq<u8>, start: int, end: int) -> Span {
    let first = line_start(bytes, start);
    Span {
        start: if all_blank(bytes, first, start) {
            first as usize
        } else {
            start as usize
        },
        end: match line_end(bytes, end) {
            Some(last) => if all_blank(bytes, end, last) {
                (last + 1) as usize
            } else {
                end as usize
            },
            None => end as usize,
        },
    }
}

/// A stretch of bytes together with the lines that nothing else is on.
pub fn whole_line_range(bytes: &[u8], start: usize, end: usize) -> (span: Span)
    requires
        start <= end <= bytes@.len(),
    ensures
        span == whole_line(bytes@, start as int, end as int),
        span.start <= start,
        end <= span.end <= bytes@.len(),
{
    let mut first: usize = start;
    let mut blank = true;
    while first > 0 && bytes[first - 1] != 10
        invariant
            first <= start <= bytes@.len(),
            line_start(bytes@, start as int) == line_start(bytes@, first as int),
            blank == all_blank(bytes@, first as int, start as int),
        decreases first,
    {
        let byte = bytes[first - 1];
        let white = byte == 32 || byte == 9 || byte == 10 || byte == 12 || byte == 13;
        let ghost before = blank;
        blank = blank && white;
        assert(blank == all_blank(bytes@, first - 1, start as int)) by {
            if blank {
                assert forall|at: int| first - 1 <= at < start implies is_blank(
                    #[trigger] bytes@[at],
                ) by {
                    if at >= first {
                        assert(all_blank(bytes@, first as int, start as int));
                    }
                }
            } else if white {
                let at = choose|at: int| first <= at < start && !is_blank(#[trigger] bytes@[at]);
                assert(!is_blank(bytes@[at]));
            } else {
                assert(!is_blank(bytes@[first - 1]));
            }
        }
        first = first - 1;
    }
    assert(line_start(bytes@, start as int) == first);
    let mut last: usize = end;
    let mut tail = true;
    while last < bytes.len() && bytes[last] != 10
        invariant
            end <= last <= bytes@.len(),
            line_end(bytes@, end as int) == line_end(bytes@, last as int),
            tail == all_blank(bytes@, end as int, last as int),
        decreases bytes.len() - last,
    {
        let byte = bytes[last];
        let white = byte == 32 || byte == 9 || byte == 10 || byte == 12 || byte == 13;
        tail = tail && white;
        assert(tail == all_blank(bytes@, end as int, last + 1)) by {
            if tail {
                assert forall|at: int| end <= at < last + 1 implies is_blank(
                    #[trigger] bytes@[at],
                ) by {
                    if at < last {
                        assert(all_blank(bytes@, end as int, last as int));
                    }
                }
            } else if white {
                let at = choose|at: int| end <= at < last && !is_blank(#[trigger] bytes@[at]);
                assert(!is_blank(bytes@[at]));
            } else {
                assert(!is_blank(bytes@[last as int]));
            }
        }
        last = last + 1;
    }
    let from: usize = if blank {
        first
    } else {
        start
    };
    let to: usize = if last < bytes.len() && tail {
        last + 1
    } else {
        end
    };
    Span { start: from, end: to }
}

/// Stretches ordered by where they begin, with one more behind those that begin where it does.
pub open spec fn with_span(spans: Seq<Span>, span: Span) -> Seq<Span>
    decreases spans.len(),
{
    if spans.len() == 0 || spans.last().start <= span.start {
        spans.push(span)
    } else {
        with_span(spans.drop_last(), span).push(spans.last())
    }
}

/// The stretch of a managed action, with the lines that nothing else is on.
pub open spec fn action_span(bytes: Seq<u8>, action: ActionView) -> Span {
    whole_line(bytes, action.start, action.end)
}

/// The stretches of the managed actions, ordered by where they begin.
pub open spec fn managed_spans(bytes: Seq<u8>, actions: Seq<ActionView>) -> Seq<Span>
    decreases actions.len(),
{
    if actions.len() == 0 {
        seq![]
    } else {
        let before = managed_spans(bytes, actions.drop_last());
        if is_managed(actions.last().id) {
            with_span(before, action_span(bytes, actions.last()))
        } else {
            before
        }
    }
}

/// How many actions are the user's own.
pub open spec fn custom_count(actions: Seq<ActionView>) -> nat
    decreases actions.len(),
{
    if actions.len() == 0 {
        0
    } else {
        custom_count(actions.drop_last()) + if is_managed(actions.last().id) {
            0nat
        } else {
            1nat
        }
    }
}

/// Whether a stretch reaches into the one behind it.
pub open spec fn spans_overlap(spans: Seq<Span>) -> bool {
    exists|at: int| 0 <= at < spans.len() - 1 && (#[trigger] spans[at]).end > spans[at + 1].start
}

/// The last place of `part` in `text`.
pub open spec fn last_place(text: Seq<u8>, part: Seq<u8>) -> Option<int>
    decreases text.len(),
{
    if finishes_with(text, part) {
        Some(text.len() - part.len())
    } else if text.len() == 0 {
        None
    } else {
        last_place(text.drop_last(), part)
    }
}

/// Whether `bytes` hold `part` before `end`.
fn held_before(bytes: &[u8], end: usize, part: &[u8]) -> (held: bool)
    requires
        end <= bytes@.len(),
    ensures
        held == finishes_with(bytes@.take(end as int), part@),
{
    if part.len() > end {
        return false;
    }
    let start: usize = end - part.len();
    let ghost tail = bytes@.take(end as int).skip(start as int);
    let mut at: usize = 0;
    while at < part.len()
        invariant
            at <= part.len(),
            start + part.len() == end <= bytes@.len(),
            tail == bytes@.take(end as int).skip(start as int),
            forall|earlier: int| 0 <= earlier < at ==> tail[earlier] == part@[earlier],
        decreases part.len() - at,
    {
        if bytes[start + at] != part[at] {
            assert(tail[at as int] != part@[at as int]);
            return false;
        }
        at = at + 1;
    }
    assert(tail =~= part@);
    true
}

/// The last place of `part` in a stretch of `bytes`, counted from where the stretch begins.
fn find_last(bytes: &[u8], start: usize, end: usize, part: &[u8]) -> (place: Option<usize>)
    requires
        start <= end <= bytes@.len(),
    ensures
        match place {
            Some(place) => last_place(bytes@.subrange(start as int, end as int), part@) == Some(
                place as int,
            ) && start + place <= end,
            None => last_place(bytes@.subrange(start as int, end as int), part@) is None,
        },
{
    let ghost source = bytes@.subrange(start as int, end as int);
    let mut at: usize = end;
    assert(source.take(at - start) =~= source);
    loop
        invariant
            start <= at <= end <= bytes@.len(),
            source == bytes@.subrange(start as int, end as int),
            last_place(source, part@) == last_place(source.take(at - start), part@),
        decreases at,
    {
        let ghost front = source.take(at - start);
        assert(front =~= bytes@.subrange(start as int, at as int));
        if at - start >= part.len() {
            let held = held_before(bytes, at, part);
            assert(bytes@.take(at as int).skip(at - part@.len()) =~= front.skip(
                front.len() - part@.len(),
            ));
            if held {
                assert(finishes_with(front, part@));
                return Some(at - start - part.len());
            }
            assert(!finishes_with(front, part@));
        }
        if at == start {
            return None;
        }
        assert(front.drop_last() =~= source.take(at - start - 1));
        at = at - 1;
    }
}

/// A list of actions.
#[derive(Debug)]
pub struct ParsedActions {
    /// Where the outermost element ends.
    pub root_end: usize,
    /// Where its end begins.
    pub root_close_start: usize,
    /// Whether it is empty.
    pub empty_root: bool,
    pub actions: Vec<ParsedAction>,
    pub managed_ranges: Vec<Span>,
    pub custom_action_count: usize,
}

/// What [`ParsedActions`] is a model of.
pub struct ActionsView {
    pub root_end: int,
    pub root_close_start: int,
    pub empty_root: bool,
    pub actions: Seq<ActionView>,
    pub managed_ranges: Seq<Span>,
    pub custom_action_count: int,
}

impl View for ParsedActions {
    type V = ActionsView;

    open spec fn view(&self) -> ActionsView {
        ActionsView {
            root_end: self.root_end as int,
            root_close_start: self.root_close_start as int,
            empty_root: self.empty_root,
            actions: action_views(self.actions@),
            managed_ranges: self.managed_ranges@,
            custom_action_count: self.custom_action_count as int,
        }
    }
}

/// What the outermost element says of a list of actions.
pub open spec fn actions_in(bytes: Seq<u8>, root: RootView) -> Result<ActionsView, ActionsError> {
    let source = bytes.subrange(root.start, root.end);
    let empty_root = finishes_with(source, vstd::utf8::encode_utf8("/>"@));
    let end_mark = if empty_root {
        vstd::utf8::encode_utf8("/>"@)
    } else {
        vstd::utf8::encode_utf8("</actions"@)
    };
    let actions = actions_of(root.children);
    let managed_ranges = managed_spans(bytes, actions);
    if root.name != "actions"@ || root.namespaced {
        Err(ActionsError::Root)
    } else {
        match last_place(source, end_mark) {
            None => Err(ActionsError::Unclosed),
            Some(place) => if spans_overlap(managed_ranges) {
                Err(ActionsError::Overlap)
            } else {
                Ok(
                    ActionsView {
                        root_end: root.end,
                        root_close_start: root.start + place,
                        empty_root,
                        actions,
                        managed_ranges,
                        custom_action_count: custom_count(actions) as int,
                    },
                )
            },
        }
    }
}

/// Whether a text declares a document type or an entity.
pub open spec fn declares(xml: Seq<char>) -> bool {
    holds_part(xml, "<!DOCTYPE"@) || holds_part(xml, "<!ENTITY"@)
}

/// The list of actions that a text is.
pub open spec fn parsed_actions(xml: Seq<char>) -> Result<ActionsView, ActionsError> {
    if vstd::utf8::encode_utf8(xml).contains(0u8) {
        Err(ActionsError::Nul)
    } else if declares(xml) {
        Err(ActionsError::Declarations)
    } else {
        match xml_root(xml) {
            None => Err(ActionsError::Malformed),
            Some(root) => actions_in(vstd::utf8::encode_utf8(xml), root),
        }
    }
}

/// Puts a stretch where it belongs.
fn insert_span(spans: &mut Vec<Span>, span: Span)
    ensures
        final(spans)@ == with_span(old(spans)@, span),
{
    let ghost views = spans@;
    let mut at: usize = spans.len();
    assert(views.take(at as int) =~= views);
    assert(with_span(views, span) =~= with_span(views, span) + views.skip(at as int));
    while at > 0 && spans[at - 1].start > span.start
        invariant
            at <= spans.len(),
            spans@ == views,
            with_span(views, span) == with_span(views.take(at as int), span) + views.skip(
                at as int,
            ),
        decreases at,
    {
        let ghost front = views.take(at as int);
        assert(front.last() == views[at - 1]);
        assert(front.drop_last() =~= views.take(at - 1));
        assert(with_span(views.take(at - 1), span).push(front.last()) + views.skip(at as int)
            =~= with_span(views.take(at - 1), span) + views.skip(at - 1));
        at = at - 1;
    }
    let ghost front = views.take(at as int);
    assert(at > 0 ==> front.last() == views[at - 1]);
    spans.insert(at, span);
    assert(spans@ =~= front.push(span) + views.skip(at as int));
}

/// The stretches of the managed actions, ordered by where they begin, and how many actions are the
/// user's own.
fn managed_ranges(bytes: &[u8], actions: &Vec<ParsedAction>) -> (found: (Vec<Span>, usize))
    requires
        forall|at: int|
            0 <= at < actions@.len() ==> (#[trigger] actions@[at]).start <= actions@[at].end
                <= bytes@.len(),
    ensures
        found.0@ == managed_spans(bytes@, action_views(actions@)),
        found.1 == custom_count(action_views(actions@)),
{
    let ghost views = action_views(actions@);
    let mut spans: Vec<Span> = Vec::new();
    let mut custom: usize = 0;
    let mut at: usize = 0;
    assert(views.take(0) =~= seq![]);
    assert(spans@ =~= seq![]);
    while at < actions.len()
        invariant
            at <= actions.len(),
            custom <= at,
            views == action_views(actions@),
            forall|place: int|
                0 <= place < actions@.len() ==> (#[trigger] actions@[place]).start
                    <= actions@[place].end <= bytes@.len(),
            spans@ == managed_spans(bytes@, views.take(at as int)),
            custom == custom_count(views.take(at as int)),
        decreases actions.len() - at,
    {
        assert(views.take(at + 1).drop_last() =~= views.take(at as int));
        assert(views[at as int] == actions@[at as int]@);
        let action = &actions[at];
        if managed(&action.id) {
            let span = whole_line_range(bytes, action.start, action.end);
            insert_span(&mut spans, span);
        } else {
            custom = custom + 1;
        }
        at = at + 1;
    }
    assert(views.take(at as int) =~= views);
    (spans, custom)
}

/// Whether a stretch reaches into the one behind it.
fn overlapping(spans: &Vec<Span>) -> (overlap: bool)
    ensures
        overlap == spans_overlap(spans@),
{
    let mut at: usize = 0;
    while at < spans.len() && spans.len() - at >= 2
        invariant
            at <= spans.len(),
            forall|earlier: int|
                0 <= earlier < at && earlier < spans@.len() - 1 ==> !((
                #[trigger] spans@[earlier]).end > spans@[earlier + 1].start),
        decreases spans.len() - at,
    {
        if spans[at].end > spans[at + 1].start {
            assert(spans@[at as int].end > spans@[at + 1].start);
            return true;
        }
        at = at + 1;
    }
    false
}

/// Whether bytes hold a zero.
fn holds_nul(bytes: &[u8]) -> (held: bool)
    ensures
        held == bytes@.contains(0u8),
{
    let mut at: usize = 0;
    while at < bytes.len()
        invariant
            at <= bytes.len(),
            forall|earlier: int| 0 <= earlier < at ==> bytes@[earlier] != 0,
        decreases bytes.len() - at,
    {
        if bytes[at] == 0 {
            assert(bytes@[at as int] == 0);
            return true;
        }
        at = at + 1;
    }
    false
}

/// What the outermost element says of a list of actions.
pub fn read_root(bytes: &[u8], root: &XmlRoot) -> (parsed: Result<ParsedActions, ActionsError>)
    requires
        root.range.start <= root.range.end <= bytes@.len(),
        forall|at: int|
            0 <= at < root.children@.len() ==> (#[trigger] root.children@[at]).range.start
                <= root.children@[at].range.end <= bytes@.len(),
    ensures
        match parsed {
            Ok(parsed) => actions_in(bytes@, root@) == Ok::<ActionsView, ActionsError>(parsed@)
                && parsed.root_close_start <= parsed.root_end <= bytes@.len(),
            Err(error) => actions_in(bytes@, root@) == Err::<ActionsView, ActionsError>(error),
        },
        match parsed {
            Ok(parsed) => forall|at: int|
                0 <= at < parsed.actions@.len() ==> (#[trigger] parsed.actions@[at]).start
                    <= parsed.actions@[at].end <= bytes@.len(),
            Err(_) => true,
        },
{
    if !text_is(&root.name, "actions") || root.namespaced {
        return Err(ActionsError::Root);
    }
    let ghost source = bytes@.subrange(root.range.start as int, root.range.end as int);
    let slash = "/>".as_bytes();
    let empty_root = if root.range.end - root.range.start >= slash.len() {
        let held = held_before(bytes, root.range.end, slash);
        assert(bytes@.take(root.range.end as int).skip(root.range.end - slash@.len()) =~= source.skip(
            source.len() - slash@.len(),
        ));
        held
    } else {
        false
    };
    assert(empty_root == finishes_with(source, slash@));
    let place = if empty_root {
        find_last(bytes, root.range.start, root.range.end, slash)
    } else {
        find_last(bytes, root.range.start, root.range.end, "</actions".as_bytes())
    };
    let place: usize = match place {
        Some(place) => place,
        None => {
            return Err(ActionsError::Unclosed);
        },
    };
    let actions = read_actions(&root.children);
    proof {
        let nodes = root@.children;
        assert forall|at: int| 0 <= at < nodes.len() implies 0 <= (#[trigger] nodes[at]).start
            <= nodes[at].end <= bytes@.len() by {
            assert(nodes[at] == root.children@[at]@);
        }
        actions_lie_in(nodes, bytes@.len() as int);
        assert forall|at: int| 0 <= at < actions@.len() implies (#[trigger] actions@[at]).start
            <= actions@[at].end <= bytes@.len() by {
            assert(action_views(actions@)[at] == actions@[at]@);
        }
    }
    let (managed_ranges, custom_action_count) = managed_ranges(bytes, &actions);
    if overlapping(&managed_ranges) {
        return Err(ActionsError::Overlap);
    }
    Ok(
        ParsedActions {
            root_end: root.range.end,
            root_close_start: root.range.start + place,
            empty_root,
            actions,
            managed_ranges,
            custom_action_count,
        },
    )
}

/// Whether a byte is in one of the stretches.
pub open spec fn is_inside(spans: Seq<Span>, at: int) -> bool {
    exists|span: int|
        0 <= span < spans.len() && (#[trigger] spans[span]).start <= at < spans[span].end
}

/// The bytes of `start..end` that are in none of the stretches.
pub open spec fn kept_bytes(bytes: Seq<u8>, spans: Seq<Span>, start: int, end: int) -> Seq<u8>
    decreases end - start,
{
    if end <= start {
        seq![]
    } else if is_inside(spans, end - 1) {
        kept_bytes(bytes, spans, start, end - 1)
    } else {
        kept_bytes(bytes, spans, start, end - 1).push(bytes[end - 1])
    }
}

/// Bytes that are ended as a line is.
pub open spec fn line_ended(bytes: Seq<u8>) -> Seq<u8> {
    if bytes.len() > 0 && bytes.last() == 10 {
        bytes
    } else {
        bytes.push(10u8)
    }
}

/// A list of actions in which the managed ones are replaced: they go to the end of the list.
pub open spec fn merged(bytes: Seq<u8>, parsed: ActionsView, fragment: Seq<u8>) -> Seq<u8> {
    if parsed.empty_root {
        bytes.take(parsed.root_close_start) + vstd::utf8::encode_utf8(">\n"@) + fragment
            + vstd::utf8::encode_utf8("</actions>"@) + bytes.skip(parsed.root_end)
    } else {
        line_ended(kept_bytes(bytes, parsed.managed_ranges, 0, parsed.root_close_start)) + fragment
            + kept_bytes(
            bytes,
            parsed.managed_ranges,
            parsed.root_close_start,
            bytes.len() as int,
        )
    }
}

/// Adds bytes to others.
fn add_bytes(output: &mut Vec<u8>, bytes: &[u8], start: usize, end: usize)
    requires
        start <= end <= bytes@.len(),
    ensures
        final(output)@ == old(output)@ + bytes@.subrange(start as int, end as int),
{
    let ghost before = output@;
    let mut at: usize = start;
    assert(output@ =~= before + bytes@.subrange(start as int, at as int));
    while at < end
        invariant
            start <= at <= end <= bytes@.len(),
            output@ == before + bytes@.subrange(start as int, at as int),
        decreases end - at,
    {
        output.push(bytes[at]);
        assert(output@ =~= before + bytes@.subrange(start as int, at + 1));
        at = at + 1;
    }
}

/// Whether a byte is in one of the stretches.
fn inside(spans: &Vec<Span>, place: usize) -> (is: bool)
    ensures
        is == is_inside(spans@, place as int),
{
    let mut at: usize = 0;
    while at < spans.len()
        invariant
            at <= spans.len(),
            forall|earlier: int|
                0 <= earlier < at ==> !((#[trigger] spans@[earlier]).start <= place
                    < spans@[earlier].end),
        decreases spans.len() - at,
    {
        if spans[at].start <= place && place < spans[at].end {
            assert(spans@[at as int].start <= place < spans@[at as int].end);
            return true;
        }
        at = at + 1;
    }
    false
}

/// Adds the bytes of a stretch that are in none of the others.
fn add_kept(output: &mut Vec<u8>, bytes: &[u8], spans: &Vec<Span>, start: usize, end: usize)
    requires
        start <= end <= bytes@.len(),
    ensures
        final(output)@ == old(output)@ + kept_bytes(bytes@, spans@, start as int, end as int),
{
    let ghost before = output@;
    let mut at: usize = start;
    assert(output@ =~= before + kept_bytes(bytes@, spans@, start as int, at as int));
    while at < end
        invariant
            start <= at <= end <= bytes@.len(),
            output@ == before + kept_bytes(bytes@, spans@, start as int, at as int),
        decreases end - at,
    {
        if !inside(spans, at) {
            output.push(bytes[at]);
        }
        assert(output@ =~= before + kept_bytes(bytes@, spans@, start as int, at + 1));
        at = at + 1;
    }
}

impl ParsedActions {
    /// Reads a list of actions.
    pub fn parse(xml: &str) -> (parsed: Result<ParsedActions, ActionsError>)
        ensures
            match parsed {
                Ok(parsed) => parsed_actions(xml@) == Ok::<ActionsView, ActionsError>(parsed@)
                    && parsed.root_close_start <= parsed.root_end <= vstd::utf8::encode_utf8(
                    xml@,
                ).len() && forall|at: int|
                    0 <= at < parsed.actions@.len() ==> (#[trigger] parsed.actions@[at]).start
                        <= parsed.actions@[at].end <= vstd::utf8::encode_utf8(xml@).len(),
                Err(error) => parsed_actions(xml@) == Err::<ActionsView, ActionsError>(error),
            },
    {
        let bytes = xml.as_bytes();
        if holds_nul(bytes) {
            return Err(ActionsError::Nul);
        }
        let chars = characters(xml);
        if contains_part(chars.as_slice(), characters("<!DOCTYPE").as_slice()) || contains_part(
            chars.as_slice(),
            characters("<!ENTITY").as_slice(),
        ) {
            return Err(ActionsError::Declarations);
        }
        match parse_xml(xml) {
            Some(root) => read_root(bytes, &root),
            None => Err(ActionsError::Malformed),
        }
    }

    /// The list in which the managed actions are replaced.
    pub fn merge(&self, xml: &[u8], managed_fragment: &Vec<u8>) -> (output: Vec<u8>)
        requires
            self.root_close_start <= self.root_end <= xml@.len(),
        ensures
            output@ == merged(xml@, self@, managed_fragment@),
    {
        let mut output: Vec<u8> = Vec::new();
        let fragment = managed_fragment.as_slice();
        assert(managed_fragment@.subrange(0, managed_fragment@.len() as int) =~= managed_fragment@);
        if self.empty_root {
            let open = ">\n".as_bytes();
            let close = "</actions>".as_bytes();
            assert(open@.subrange(0, open@.len() as int) =~= open@);
            assert(close@.subrange(0, close@.len() as int) =~= close@);
            add_bytes(&mut output, xml, 0, self.root_close_start);
            add_bytes(&mut output, open, 0, open.len());
            add_bytes(&mut output, fragment, 0, fragment.len());
            add_bytes(&mut output, close, 0, close.len());
            add_bytes(&mut output, xml, self.root_end, xml.len());
            assert(output@ =~= merged(xml@, self@, managed_fragment@));
            return output;
        }
        add_kept(&mut output, xml, &self.managed_ranges, 0, self.root_close_start);
        assert(output@ =~= kept_bytes(
            xml@,
            self.managed_ranges@,
            0,
            self.root_close_start as int,
        ));
        if output.len() == 0 || output[output.len() - 1] != 10 {
            output.push(10);
        }
        add_bytes(&mut output, fragment, 0, fragment.len());
        add_kept(&mut output, xml, &self.managed_ranges, self.root_close_start, xml.len());
        output
    }

    /// The place of the first action with that identifier.
    pub fn action_by_id(&self, id: &str) -> (place: Option<usize>)
        ensures
            match place {
                Some(at) => at < self.actions@.len() && first_action(self@.actions, id@) == Some(
                    self.actions@[at as int]@,
                ),
                None => first_action(self@.actions, id@) is None,
            },
    {
        let ghost views = self@.actions;
        let mut at: usize = 0;
        assert(views.skip(0) =~= views);
        while at < self.actions.len()
            invariant
                at <= self.actions.len(),
                views == action_views(self.actions@),
                first_action(views, id@) == first_action(views.skip(at as int), id@),
            decreases self.actions.len() - at,
        {
            assert(views.skip(at as int)[0] == self.actions@[at as int]@);
            assert(views.skip(at as int).skip(1) =~= views.skip(at + 1));
            if text_is(&self.actions[at].id, id) {
                return Some(at);
            }
            at = at + 1;
        }
        None
    }
}

/// The first action with that identifier.
pub open spec fn first_action(actions: Seq<ActionView>, id: Seq<char>) -> Option<ActionView>
    decreases actions.len(),
{
    if actions.len() == 0 {
        None
    } else if actions[0].id == id {
        Some(actions[0])
    } else {
        first_action(actions.skip(1), id)
    }
}

/// Whether an action runs that command, under that name, for single AppImages.
pub open spec fn is_fixed_action(
    action: Option<ActionView>,
    command: Seq<char>,
    name: Seq<char>,
) -> bool {
    match action {
        Some(action) => action.command == Some(command) && action.name == Some(name)
            && action.patterns == Some("*.AppImage;*.appimage"@) && action.range_value == Some(
            "1-1"@,
        ) && action.other_files,
        None => false,
    }
}

/// Whether a text that may be absent is that one.
fn optional_is(text: &Option<String>, other: &str) -> (is: bool)
    ensures
        is == (optional_text(*text) == Some(other@)),
{
    match text {
        Some(text) => text_is(text, other),
        None => false,
    }
}

/// Whether an action runs that command, under that name, for single AppImages.
pub fn validate_template_action(action: &ParsedAction, command: &str, name: &str) -> (valid: bool)
    ensures
        valid == is_fixed_action(Some(action@), command@, name@),
{
    optional_is(&action.command, command) && optional_is(&action.name, name) && optional_is(
        &action.patterns,
        "*.AppImage;*.appimage",
    ) && optional_is(&action.range_value, "1-1") && action.other_files
}

/// The bytes of the actions, each on a line of its own.
pub open spec fn fragment_of(bytes: Seq<u8>, actions: Seq<ActionView>) -> Seq<u8>
    decreases actions.len(),
{
    if actions.len() == 0 {
        seq![]
    } else {
        fragment_of(bytes, actions.drop_last()) + seq![32u8, 32u8] + bytes.subrange(
            actions.last().start,
            actions.last().end,
        ) + seq![10u8]
    }
}

/// Whether all actions are managed ones.
pub open spec fn all_managed(actions: Seq<ActionView>) -> bool {
    forall|at: int| 0 <= at < actions.len() ==> is_managed((#[trigger] actions[at]).id)
}

/// The managed actions that a text gives: exactly the two, with their fixed commands.
pub open spec fn managed_fragment(xml: Seq<char>) -> Result<Seq<u8>, ThunarActionInstallError> {
    match parsed_actions(xml) {
        Err(error) => Err(ThunarActionInstallError::InvalidTemplate(error)),
        Ok(parsed) => if parsed.actions.len() != 2 || !all_managed(parsed.actions) {
            Err(ThunarActionInstallError::NotManaged)
        } else if !is_fixed_action(
            first_action(parsed.actions, applications_id()),
            "/usr/libexec/buzzardos-shortcut-helper register-applications %f"@,
            "Add to Applications"@,
        ) {
            Err(ThunarActionInstallError::ApplicationsAction)
        } else if !is_fixed_action(
            first_action(parsed.actions, desktop_id()),
            "/usr/libexec/buzzardos-shortcut-helper register-desktop %f"@,
            "Add Desktop Shortcut"@,
        ) {
            Err(ThunarActionInstallError::DesktopAction)
        } else {
            Ok(fragment_of(vstd::utf8::encode_utf8(xml), parsed.actions))
        },
    }
}

/// The managed actions.
#[derive(Debug)]
pub struct ManagedTemplate {
    pub fragment: Vec<u8>,
}

/// Whether all actions are managed ones.
fn only_managed(actions: &Vec<ParsedAction>) -> (only: bool)
    ensures
        only == all_managed(action_views(actions@)),
{
    let ghost views = action_views(actions@);
    let mut at: usize = 0;
    while at < actions.len()
        invariant
            at <= actions.len(),
            views == action_views(actions@),
            forall|earlier: int|
                0 <= earlier < at ==> is_managed((#[trigger] views[earlier]).id),
        decreases actions.len() - at,
    {
        assert(views[at as int] == actions@[at as int]@);
        if !managed(&actions[at].id) {
            assert(!is_managed(views[at as int].id));
            return false;
        }
        at = at + 1;
    }
    true
}

impl ManagedTemplate {
    /// Reads the managed actions.
    pub fn parse(xml: &str) -> (template: Result<ManagedTemplate, ThunarActionInstallError>)
        ensures
            match template {
                Ok(template) => managed_fragment(xml@) == Ok::<Seq<u8>, ThunarActionInstallError>(
                    template.fragment@,
                ),
                Err(error) => managed_fragment(xml@) == Err::<
                    Seq<u8>,
                    ThunarActionInstallError,
                >(error),
            },
    {
        let parsed = match ParsedActions::parse(xml) {
            Ok(parsed) => parsed,
            Err(error) => {
                return Err(ThunarActionInstallError::InvalidTemplate(error));
            },
        };
        assert(parsed@.actions.len() == parsed.actions@.len());
        if parsed.actions.len() != 2 || !only_managed(&parsed.actions) {
            return Err(ThunarActionInstallError::NotManaged);
        }
        let applications = match parsed.action_by_id("buzzardos-appimage-add-applications-v1") {
            Some(at) => validate_template_action(
                &parsed.actions[at],
                "/usr/libexec/buzzardos-shortcut-helper register-applications %f",
                "Add to Applications",
            ),
            None => false,
        };
        if !applications {
            return Err(ThunarActionInstallError::ApplicationsAction);
        }
        let desktop = match parsed.action_by_id("buzzardos-appimage-add-desktop-v1") {
            Some(at) => validate_template_action(
                &parsed.actions[at],
                "/usr/libexec/buzzardos-shortcut-helper register-desktop %f",
                "Add Desktop Shortcut",
            ),
            None => false,
        };
        if !desktop {
            return Err(ThunarActionInstallError::DesktopAction);
        }
        let bytes = xml.as_bytes();
        let ghost views = parsed@.actions;
        let mut fragment: Vec<u8> = Vec::new();
        let mut at: usize = 0;
        assert(views.take(0) =~= seq![]);
        assert(fragment@ =~= seq![]);
        while at < parsed.actions.len()
            invariant
                at <= parsed.actions.len(),
                views == action_views(parsed.actions@),
                forall|place: int|
                    0 <= place < parsed.actions@.len() ==> (#[trigger] parsed.actions@[place]).start
                        <= parsed.actions@[place].end <= bytes@.len(),
                fragment@ == fragment_of(bytes@, views.take(at as int)),
            decreases parsed.actions.len() - at,
        {
            assert(views.take(at + 1).drop_last() =~= views.take(at as int));
            let action = &parsed.actions[at];
            assert(views[at as int] == action@);
            let ghost before = fragment@;
            fragment.push(32);
            fragment.push(32);
            assert(fragment@ =~= before + seq![32u8, 32u8]);
            add_bytes(&mut fragment, bytes, action.start, action.end);
            fragment.push(10);
            assert(fragment@ =~= before + seq![32u8, 32u8] + bytes@.subrange(
                action@.start,
                action@.end,
            ) + seq![10u8]);
            at = at + 1;
        }
        assert(views.take(at as int) =~= views);
        Ok(ManagedTemplate { fragment })
    }
}

/// What putting the actions into the user's list comes to.
#[derive(Debug)]
pub struct ThunarActionInstall {
    /// Whether the list is to be written.
    pub changed: bool,
    /// How many of the user's own actions stay.
    pub preserved_custom_actions: usize,
    /// How many actions are managed.
    pub managed_actions: usize,
    /// What the list is to hold.
    pub content: Vec<u8>,
}

/// Whether a path can be the directory for settings.
pub open spec fn is_valid_base(path: Seq<u8>) -> bool {
    is_absolute_path(path) && path_parts(path).len() > 0 && !path_parts(path).contains(
        parent_part(),
    )
}

/// Whether a path can be the directory for settings.
pub fn valid_absolute_base(path: &FilePath) -> (valid: bool)
    ensures
        valid == is_valid_base(path@),
{
    let parts = named_parts(path.bytes.as_slice());
    assert(byte_parts(parts@).len() == parts@.len());
    path.is_absolute() && parts.len() > 0 && !goes_up(&parts)
}

/// The list of a user who has none.
pub open spec fn empty_list() -> Seq<u8> {
    vstd::utf8::encode_utf8(
        "<?xml version=\"1.0\" encoding=\"UTF-8\"?>\n<actions>\n</actions>\n"@,
    )
}

/// What putting the actions into the user's list comes to; the list that it is to hold, and how
/// many of the user's own actions stay.
pub open spec fn installed(
    base: Seq<u8>,
    template: Seq<u8>,
    original: Seq<u8>,
) -> Result<(Seq<u8>, int), ThunarActionInstallError> {
    if !is_valid_base(base) {
        Err(ThunarActionInstallError::InvalidConfigBase)
    } else if template.len() > MAX_UCA_BYTES {
        Err(ThunarActionInstallError::TooLarge)
    } else if !vstd::utf8::valid_utf8(template) {
        Err(ThunarActionInstallError::TemplateNotText)
    } else {
        match managed_fragment(vstd::utf8::decode_utf8(template)) {
            Err(error) => Err(error),
            Ok(fragment) => if original.len() > MAX_UCA_BYTES {
                Err(ThunarActionInstallError::TooLarge)
            } else if !vstd::utf8::valid_utf8(original) {
                Err(ThunarActionInstallError::UserNotText)
            } else {
                match parsed_actions(vstd::utf8::decode_utf8(original)) {
                    Err(error) => Err(ThunarActionInstallError::InvalidUserXml(error)),
                    Ok(parsed) => Ok(
                        (merged(original, parsed, fragment), parsed.custom_action_count),
                    ),
                }
            },
        }
    }
}

/// Puts the managed actions into the user's list: `template` is the managed list, `original` the
/// user's, where there is one, and `private` whether only the user may read it.
pub fn install_thunar_actions_at(
    config_home: &FilePath,
    template: &Vec<u8>,
    original: &Option<Vec<u8>>,
    private: bool,
) -> (install: Result<ThunarActionInstall, ThunarActionInstallError>)
    ensures
        ({
            let before = match *original {
                Some(original) => original@,
                None => empty_list(),
            };
            match (install, installed(config_home@, template@, before)) {
                (Ok(install), Ok(result)) => install.content@ == result.0
                    && install.preserved_custom_actions == result.1 && install.managed_actions == 2
                    && install.changed == (result.0 != before || !private),
                (Err(error), Err(result)) => error == result,
                _ => false,
            }
        }),
{
    if !valid_absolute_base(config_home) {
        return Err(ThunarActionInstallError::InvalidConfigBase);
    }
    if template.len() > MAX_UCA_BYTES {
        return Err(ThunarActionInstallError::TooLarge);
    }
    let text = match from_utf8(template.as_slice()) {
        Some(text) => text,
        None => {
            return Err(ThunarActionInstallError::TemplateNotText);
        },
    };
    let managed = match ManagedTemplate::parse(text.as_str()) {
        Ok(managed) => managed,
        Err(error) => {
            return Err(error);
        },
    };
    let before = match original {
        Some(original) => copy_bytes(original.as_slice()),
        None => copy_bytes(
            "<?xml version=\"1.0\" encoding=\"UTF-8\"?>\n<actions>\n</actions>\n".as_bytes(),
        ),
    };
    if before.len() > MAX_UCA_BYTES {
        return Err(ThunarActionInstallError::TooLarge);
    }
    let text = match from_utf8(before.as_slice()) {
        Some(text) => text,
        None => {
            return Err(ThunarActionInstallError::UserNotText);
        },
    };
    proof {
        vstd::utf8::decode_utf8_encode_utf8(before@);
    }
    let parsed = match ParsedActions::parse(text.as_str()) {
        Ok(parsed) => parsed,
        Err(error) => {
            return Err(ThunarActionInstallError::InvalidUserXml(error));
        },
    };
    let content = parsed.merge(before.as_slice(), &managed.fragment);
    let changed = !same_bytes(content.as_slice(), before.as_slice()) || !private;
    Ok(
        ThunarActionInstall {
            changed,
            preserved_custom_actions: parsed.custom_action_count,
            managed_actions: 2,
            content,
        },
    )
}

/// Every byte of the user's list that is not part of a managed action stays, in its order: the list
/// that results is those bytes, with the managed actions between two of them, on lines of their own.
pub proof fn other_bytes_are_preserved(bytes: Seq<u8>, parsed: ActionsView, fragment: Seq<u8>)
    requires
        !parsed.empty_root,
        0 <= parsed.root_close_start <= bytes.len(),
    ensures
        ({
            let spans = parsed.managed_ranges;
            let front = kept_bytes(bytes, spans, 0, parsed.root_close_start);
            let back = kept_bytes(bytes, spans, parsed.root_close_start, bytes.len() as int);
            &&& front + back == kept_bytes(bytes, spans, 0, bytes.len() as int)
            &&& merged(bytes, parsed, fragment) == line_ended(front) + fragment + back
        }),
{
    kept_parts(bytes, parsed.managed_ranges, 0, parsed.root_close_start, bytes.len() as int);
}

/// A list without actions gets the managed ones and keeps what is before and behind it.
pub proof fn empty_lists_keep_their_surroundings(
    bytes: Seq<u8>,
    parsed: ActionsView,
    fragment: Seq<u8>,
)
    requires
        parsed.empty_root,
        0 <= parsed.root_close_start <= parsed.root_end <= bytes.len(),
    ensures
        ({
            let whole = merged(bytes, parsed, fragment);
            let front = bytes.take(parsed.root_close_start);
            let back = bytes.skip(parsed.root_end);
            &&& whole.take(front.len() as int) == front
            &&& whole.skip(whole.len() - back.len()) == back
            &&& crate::text::holds_part(whole, fragment)
        }),
{
    let whole = merged(bytes, parsed, fragment);
    let front = bytes.take(parsed.root_close_start);
    let back = bytes.skip(parsed.root_end);
    let opened = front + vstd::utf8::encode_utf8(">\n"@);
    assert(whole.take(front.len() as int) =~= front);
    assert(whole.skip(whole.len() - back.len()) =~= back);
    assert(whole.subrange(opened.len() as int, opened.len() as int + fragment.len()) =~= fragment);
}

/// An action that is found by its identifier is one of the actions.
proof fn found_action_is_there(actions: Seq<ActionView>, id: Seq<char>) -> (place: int)
    requires
        first_action(actions, id) is Some,
    ensures
        0 <= place < actions.len(),
        actions[place].id == id,
    decreases actions.len(),
{
    if actions[0].id == id {
        0
    } else {
        1 + found_action_is_there(actions.skip(1), id)
    }
}

/// The managed actions are two, one with each of the managed identifiers.
pub proof fn managed_actions_are_there_once(xml: Seq<char>)
    requires
        managed_fragment(xml) is Ok,
    ensures
        parsed_actions(xml) is Ok,
        ({
            let actions = parsed_actions(xml)->Ok_0.actions;
            &&& managed_fragment(xml) == Ok::<Seq<u8>, ThunarActionInstallError>(
                fragment_of(vstd::utf8::encode_utf8(xml), actions),
            )
            &&& actions.len() == 2
            &&& (actions[0].id == applications_id() && actions[1].id == desktop_id()) || (
            actions[0].id == desktop_id() && actions[1].id == applications_id())
            &&& applications_id() != desktop_id()
        }),
{
    let actions = parsed_actions(xml)->Ok_0.actions;
    let one = found_action_is_there(actions, applications_id());
    let other = found_action_is_there(actions, desktop_id());
    assert(applications_id() != desktop_id()) by {
        reveal_strlit("buzzardos-appimage-add-applications-v1");
        reveal_strlit("buzzardos-appimage-add-desktop-v1");
        assert(applications_id().len() != desktop_id().len());
    }
}

/// Installing the managed actions keeps everything else of the user's list, byte for byte and in its
/// order, and counts the user's own actions. The list that results is what the user had outside the
/// managed actions, with the managed ones between two parts of it; of a list that had no actions and
/// no end of its own, all that is before and behind it stays.
pub proof fn installing_keeps_everything_else(
    base: Seq<u8>,
    template: Seq<u8>,
    original: Seq<u8>,
    content: Seq<u8>,
    count: int,
)
    requires
        installed(base, template, original) == Ok::<(Seq<u8>, int), ThunarActionInstallError>(
            (content, count),
        ),
        match parsed_actions(vstd::utf8::decode_utf8(original)) {
            Ok(parsed) => 0 <= parsed.root_close_start <= parsed.root_end <= original.len(),
            Err(_) => false,
        },
    ensures
        ({
            let fragment = managed_fragment(vstd::utf8::decode_utf8(template))->Ok_0;
            let parsed = parsed_actions(vstd::utf8::decode_utf8(original))->Ok_0;
            let close = parsed.root_close_start;
            let spans = parsed.managed_ranges;
            let front = kept_bytes(original, spans, 0, close);
            let back = kept_bytes(original, spans, close, original.len() as int);
            &&& count == custom_count(parsed.actions)
            &&& !parsed.empty_root ==> content == line_ended(front) + fragment + back && front
                + back == kept_bytes(original, spans, 0, original.len() as int)
            &&& parsed.empty_root ==> content.take(close) == original.take(close) && content.skip(
                content.len() - (original.len() - parsed.root_end),
            ) == original.skip(parsed.root_end) && holds_part(content, fragment)
        }),
{
    let fragment = managed_fragment(vstd::utf8::decode_utf8(template))->Ok_0;
    let parsed = parsed_actions(vstd::utf8::decode_utf8(original))->Ok_0;
    vstd::utf8::decode_utf8_encode_utf8(original);
    if parsed.empty_root {
        empty_lists_keep_their_surroundings(original, parsed, fragment);
    } else {
        other_bytes_are_preserved(original, parsed, fragment);
    }
}

/// What is kept of a stretch is what is kept of its two parts.
proof fn kept_parts(bytes: Seq<u8>, spans: Seq<Span>, start: int, middle: int, end: int)
    requires
        start <= middle <= end,
    ensures
        kept_bytes(bytes, spans, start, middle) + kept_bytes(bytes, spans, middle, end)
            == kept_bytes(bytes, spans, start, end),
    decreases end - middle,
{
    if middle < end {
        kept_parts(bytes, spans, start, middle, end - 1);
    }
    assert(kept_bytes(bytes, spans, start, middle) + kept_bytes(bytes, spans, middle, end)
        =~= kept_bytes(bytes, spans, start, end));
}

/// A stretch that is in none of the others is kept as it is.
proof fn kept_whole(bytes: Seq<u8>, spans: Seq<Span>, start: int, end: int)
    requires
        0 <= start <= end <= bytes.len(),
        forall|at: int| start <= at < end ==> !#[trigger] is_inside(spans, at),
    ensures
        kept_bytes(bytes, spans, start, end) == bytes.subrange(start, end),
    decreases end - start,
{
    if start < end {
        kept_whole(bytes, spans, start, end - 1);
        assert(!is_inside(spans, end - 1));
    }
    assert(kept_bytes(bytes, spans, start, end) =~= bytes.subrange(start, end));
}

/// Of a stretch that is in the others nothing is kept.
proof fn kept_nothing(bytes: Seq<u8>, spans: Seq<Span>, start: int, end: int)
    requires
        start <= end,
        forall|at: int| start <= at < end ==> #[trigger] is_inside(spans, at),
    ensures
        kept_bytes(bytes, spans, start, end) == Seq::<u8>::empty(),
    decreases end - start,
{
    if start < end {
        kept_nothing(bytes, spans, start, end - 1);
        assert(is_inside(spans, end - 1));
    }
}

/// What a list holds before the managed actions that were put into it.
pub open spec fn before_fragment(bytes: Seq<u8>, parsed: ActionsView) -> Seq<u8> {
    if parsed.empty_root {
        bytes.take(parsed.root_close_start) + vstd::utf8::encode_utf8(">\n"@)
    } else {
        line_ended(kept_bytes(bytes, parsed.managed_ranges, 0, parsed.root_close_start))
    }
}

/// Whether a reading of a list finds the managed actions exactly at `first..close`, where the end
/// of the list begins.
pub open spec fn finds_fragment(again: ActionsView, first: int, close: int) -> bool {
    &&& !again.empty_root
    &&& again.root_close_start == close
    &&& forall|at: int|
        #![trigger is_inside(again.managed_ranges, at)]
        is_inside(again.managed_ranges, at) <==> first <= at < close
}

/// Putting the managed actions into a list that has just got them changes no byte, be it a list that
/// had no actions and no end of its own: where the second reading finds the managed actions exactly
/// where the first put them, before the end of the list.
pub proof fn merging_again_changes_nothing(
    bytes: Seq<u8>,
    parsed: ActionsView,
    fragment: Seq<u8>,
    again: ActionsView,
)
    requires
        0 <= parsed.root_close_start <= bytes.len(),
        finds_fragment(
            again,
            before_fragment(bytes, parsed).len() as int,
            (before_fragment(bytes, parsed).len() + fragment.len()) as int,
        ),
    ensures
        merged(merged(bytes, parsed, fragment), again, fragment) == merged(bytes, parsed, fragment),
{
    let front = before_fragment(bytes, parsed);
    let back = if parsed.empty_root {
        vstd::utf8::encode_utf8("</actions>"@) + bytes.skip(parsed.root_end)
    } else {
        kept_bytes(
            bytes,
            parsed.managed_ranges,
            parsed.root_close_start,
            bytes.len() as int,
        )
    };
    let whole = merged(bytes, parsed, fragment);
    let first = front.len() as int;
    let close = again.root_close_start;
    let length = whole.len() as int;
    assert(whole =~= front + fragment + back);
    kept_whole(whole, again.managed_ranges, 0, first);
    kept_nothing(whole, again.managed_ranges, first, close);
    kept_parts(whole, again.managed_ranges, 0, first, close);
    kept_whole(whole, again.managed_ranges, close, length);
    assert(whole.subrange(0, first) =~= front);
    assert(whole.subrange(close, length) =~= back);
    assert(kept_bytes(whole, again.managed_ranges, 0, close) =~= front);
    fronts_end_a_line(bytes, parsed);
    assert(line_ended(front) == front);
}

/// Whether the outermost element of a list is read back with its own `count` actions and, behind
/// them, two managed ones: on lines of their own from `first` on, with these lengths, before the end
/// of the list.
pub open spec fn reads_back(
    root: RootView,
    bytes: Seq<u8>,
    first: int,
    lengths: (int, int),
    count: int,
) -> bool {
    let actions = actions_of(root.children);
    let source = bytes.subrange(root.start, root.end);
    let start = first + 2;
    let end = start + lengths.0;
    let next = end + 3;
    let close = next + lengths.1 + 1;
    &&& root.name == "actions"@ && !root.namespaced
    &&& !finishes_with(source, vstd::utf8::encode_utf8("/>"@))
    &&& last_place(source, vstd::utf8::encode_utf8("</actions"@)) == Some(close - root.start)
    &&& 0 <= count && actions.len() == count + 2
    &&& forall|at: int| 0 <= at < count ==> !is_managed((#[trigger] actions[at]).id)
    &&& is_managed(actions[count].id) && actions[count].start == start && actions[count].end == end
    &&& is_managed(actions[count + 1].id) && actions[count + 1].start == next && actions[count
        + 1].end == next + lengths.1
}

/// Actions that are not managed have no stretches, and all of them are the user's own.
proof fn own_actions_have_no_spans(bytes: Seq<u8>, actions: Seq<ActionView>)
    requires
        forall|at: int| 0 <= at < actions.len() ==> !is_managed((#[trigger] actions[at]).id),
    ensures
        managed_spans(bytes, actions) == Seq::<Span>::empty(),
        custom_count(actions) == actions.len(),
    decreases actions.len(),
{
    if actions.len() > 0 {
        let front = actions.drop_last();
        assert forall|at: int| 0 <= at < front.len() implies !is_managed(
            (#[trigger] front[at]).id,
        ) by {
            assert(front[at] == actions[at]);
        }
        own_actions_have_no_spans(bytes, front);
        assert(actions.last() == actions[actions.len() - 1]);
    }
}

/// The stretch of what stands alone on a line behind two spaces is the line.
proof fn alone_on_its_line(bytes: Seq<u8>, first: int, end: int)
    requires
        0 < first,
        first + 2 <= end < bytes.len() <= usize::MAX,
        bytes[first - 1] == 10,
        bytes[first] == 32,
        bytes[first + 1] == 32,
        bytes[end] == 10,
    ensures
        whole_line(bytes, first + 2, end) == (Span { start: first as usize, end: (end + 1) as usize }),
{
    reveal_with_fuel(line_start, 4);
    reveal_with_fuel(line_end, 2);
}

/// Two managed actions that are read back where they were put are found there.
proof fn read_back_is_found(
    bytes: Seq<u8>,
    root: RootView,
    first: int,
    lengths: (int, int),
    count: int,
)
    requires
        reads_back(root, bytes, first, lengths, count),
        0 < first,
        0 <= lengths.0 && 0 <= lengths.1,
        first + lengths.0 + lengths.1 + 6 <= bytes.len() <= usize::MAX,
        bytes[first - 1] == 10,
        bytes[first] == 32 && bytes[first + 1] == 32,
        bytes[first + 2 + lengths.0] == 10,
        bytes[first + lengths.0 + 3] == 32 && bytes[first + lengths.0 + 4] == 32,
        bytes[first + lengths.0 + lengths.1 + 5] == 10,
    ensures
        match actions_in(bytes, root) {
            Ok(again) => finds_fragment(again, first, first + lengths.0 + lengths.1 + 6)
                && again.custom_action_count == count,
            Err(_) => false,
        },
{
    let actions = actions_of(root.children);
    let middle = first + lengths.0 + 3;
    let close = first + lengths.0 + lengths.1 + 6;
    alone_on_its_line(bytes, first, middle - 1);
    alone_on_its_line(bytes, middle, close - 1);
    let one = Span { start: first as usize, end: middle as usize };
    let other = Span { start: middle as usize, end: close as usize };
    let front = actions.drop_last();
    let own = front.drop_last();
    assert(front.last() == actions[count]);
    assert(actions.last() == actions[count + 1]);
    assert forall|at: int| 0 <= at < own.len() implies !is_managed((#[trigger] own[at]).id) by {
        assert(own[at] == actions[at]);
    }
    own_actions_have_no_spans(bytes, own);
    let spans = managed_spans(bytes, actions);
    assert(managed_spans(bytes, front) =~= seq![one]);
    assert(spans =~= seq![one, other]);
    assert(!spans_overlap(spans));
    assert forall|at: int| #[trigger] is_inside(spans, at) <==> first <= at < close by {
        if first <= at < middle {
            assert(spans[0].start <= at < spans[0].end);
        } else if middle <= at < close {
            assert(spans[1].start <= at < spans[1].end);
        }
    }
    assert(custom_count(front) == custom_count(own));
    assert(custom_count(actions) == custom_count(front));
}

/// Putting the managed actions into the user's list a second time leaves the list as the first time
/// left it, with as many of the user's own actions, be it a list that had no actions and no end of
/// its own: where the list is not too large and is read back with the elements that were written.
pub proof fn installing_again_changes_nothing(
    base: Seq<u8>,
    template: Seq<u8>,
    original: Seq<u8>,
    content: Seq<u8>,
    count: int,
    root: RootView,
)
    requires
        installed(base, template, original) == Ok::<(Seq<u8>, int), ThunarActionInstallError>(
            (content, count),
        ),
        content.len() <= MAX_UCA_BYTES,
        vstd::utf8::valid_utf8(content),
        !content.contains(0u8),
        !declares(vstd::utf8::decode_utf8(content)),
        xml_root(vstd::utf8::decode_utf8(content)) == Some(root),
        match (
            parsed_actions(vstd::utf8::decode_utf8(template)),
            parsed_actions(vstd::utf8::decode_utf8(original)),
        ) {
            (Ok(managed), Ok(parsed)) => {
                let actions = managed.actions;
                &&& 0 <= parsed.root_close_start <= original.len()
                &&& 0 <= actions[0].start <= actions[0].end <= template.len()
                &&& 0 <= actions[1].start <= actions[1].end <= template.len()
                &&& reads_back(
                    root,
                    content,
                    before_fragment(original, parsed).len() as int,
                    (actions[0].end - actions[0].start, actions[1].end - actions[1].start),
                    count,
                )
            },
            _ => false,
        },
    ensures
        installed(base, template, content) == Ok::<(Seq<u8>, int), ThunarActionInstallError>(
            (content, count),
        ),
{
    let managed = parsed_actions(vstd::utf8::decode_utf8(template))->Ok_0;
    let parsed = parsed_actions(vstd::utf8::decode_utf8(original))->Ok_0;
    let actions = managed.actions;
    let fragment = fragment_of(template, actions);
    let lengths = (actions[0].end - actions[0].start, actions[1].end - actions[1].start);
    vstd::utf8::decode_utf8_encode_utf8(template);
    vstd::utf8::decode_utf8_encode_utf8(content);
    two_actions_are_two_lines(template, actions);
    written_is_found(original, parsed, fragment, content, lengths, count, root);
    merging_again_changes_nothing(original, parsed, fragment, actions_in(content, root)->Ok_0);
}

/// Whether bytes are two lines that each begin with two spaces and go on for these lengths.
spec fn are_two_lines(fragment: Seq<u8>, lengths: (int, int)) -> bool {
    &&& 0 <= lengths.0 && 0 <= lengths.1
    &&& fragment.len() == lengths.0 + lengths.1 + 6
    &&& fragment[0] == 32 && fragment[1] == 32
    &&& fragment[lengths.0 + 2] == 10
    &&& fragment[lengths.0 + 3] == 32 && fragment[lengths.0 + 4] == 32
    &&& fragment[lengths.0 + lengths.1 + 5] == 10
}

/// The bytes of two actions are two lines.
proof fn two_actions_are_two_lines(bytes: Seq<u8>, actions: Seq<ActionView>)
    requires
        actions.len() == 2,
        0 <= actions[0].start <= actions[0].end <= bytes.len(),
        0 <= actions[1].start <= actions[1].end <= bytes.len(),
    ensures
        are_two_lines(
            fragment_of(bytes, actions),
            (actions[0].end - actions[0].start, actions[1].end - actions[1].start),
        ),
{
    let one = bytes.subrange(actions[0].start, actions[0].end);
    let other = bytes.subrange(actions[1].start, actions[1].end);
    reveal_with_fuel(fragment_of, 3);
    assert(actions.drop_last().last() == actions[0]);
    assert(actions.last() == actions[1]);
    assert(fragment_of(bytes, actions) =~= seq![32u8, 32u8] + one + seq![10u8] + seq![32u8, 32u8]
        + other + seq![10u8]);
}

/// A list that was written with two lines of managed actions and is read back with them is one in
/// which they are found.
proof fn written_is_found(
    original: Seq<u8>,
    parsed: ActionsView,
    fragment: Seq<u8>,
    content: Seq<u8>,
    lengths: (int, int),
    count: int,
    root: RootView,
)
    requires
        content == merged(original, parsed, fragment),
        content.len() <= MAX_UCA_BYTES,
        are_two_lines(fragment, lengths),
        reads_back(root, content, before_fragment(original, parsed).len() as int, lengths, count),
    ensures
        match actions_in(content, root) {
            Ok(again) => finds_fragment(
                again,
                before_fragment(original, parsed).len() as int,
                (before_fragment(original, parsed).len() + fragment.len()) as int,
            ) && again.custom_action_count == count,
            Err(_) => false,
        },
{
    let front = before_fragment(original, parsed);
    let first = front.len() as int;
    let back = if parsed.empty_root {
        vstd::utf8::encode_utf8("</actions>"@) + original.skip(parsed.root_end)
    } else {
        kept_bytes(
            original,
            parsed.managed_ranges,
            parsed.root_close_start,
            original.len() as int,
        )
    };
    assert(content =~= front + fragment + back);
    fronts_end_a_line(original, parsed);
    assert(content[first - 1] == front.last());
    assert(content[first + 0] == fragment[0]);
    assert(content[first + 1] == fragment[1]);
    assert(content[first + (lengths.0 + 2)] == fragment[lengths.0 + 2]);
    assert(content[first + (lengths.0 + 3)] == fragment[lengths.0 + 3]);
    assert(content[first + (lengths.0 + 4)] == fragment[lengths.0 + 4]);
    assert(content[first + (lengths.0 + lengths.1 + 5)] == fragment[lengths.0 + lengths.1 + 5]);
    read_back_is_found(content, root, first, lengths, count);
}

/// What a list holds before the managed actions ends a line.
proof fn fronts_end_a_line(bytes: Seq<u8>, parsed: ActionsView)
    ensures
        before_fragment(bytes, parsed).len() > 0,
        before_fragment(bytes, parsed).last() == 10u8,
{
    if parsed.empty_root {
        reveal_strlit(">\n");
        vstd::utf8::is_ascii_chars_encode_utf8(">\n"@);
        let end = vstd::utf8::encode_utf8(">\n"@);
        assert(before_fragment(bytes, parsed).last() == end.last());
    }
}

/// The text of a field is that of the first element of its name, without the white space round it;
/// where there is no such element there is none.
pub proof fn fields_are_found_by_name(
    before: Seq<FieldView>,
    field: FieldView,
    rest: Seq<FieldView>,
)
    requires
        forall|at: int| 0 <= at < before.len() ==> (#[trigger] before[at]).name != field.name,
    ensures
        text_in(before, field.name) is None,
        text_in(before + seq![field] + rest, field.name) is Some,
        field.text is Some ==> text_in(before + seq![field] + rest, field.name) == Some(
            trimmed(field.text->0),
        ),
    decreases before.len(),
{
    let whole = before + seq![field] + rest;
    if before.len() == 0 {
        assert(whole[0] == field);
    } else {
        let tail = before.skip(1);
        assert(before[0].name != field.name);
        assert forall|at: int| 0 <= at < tail.len() implies (#[trigger] tail[at]).name
            != field.name by {
            assert(before[at + 1].name != field.name);
        }
        fields_are_found_by_name(tail, field, rest);
        assert(whole[0] == before[0]);
        assert(whole.skip(1) =~= tail + seq![field] + rest);
    }
}

/// Each part of an action is what the element of its name says.
pub proof fn actions_say_what_their_elements_say(node: NodeView)
    ensures
        ({
            let action = action_of(node);
            &&& action.start == node.start
            &&& action.end == node.end
            &&& action.name == text_in(node.fields, "name"@)
            &&& action.command == text_in(node.fields, "command"@)
            &&& action.patterns == text_in(node.fields, "patterns"@)
            &&& action.range_value == text_in(node.fields, "range"@)
            &&& action.other_files <==> text_in(node.fields, "other-files"@) is Some
            &&& text_in(node.fields, "unique-id"@) is Some ==> action.id == text_in(
                node.fields,
                "unique-id"@,
            )->0
            &&& text_in(node.fields, "unique-id"@) is None ==> action.id.len() == 0
        }),
{
}

/// The actions of a list are its elements of that name, each in its place, and nothing else.
pub proof fn only_elements_for_actions_are_actions(nodes: Seq<NodeView>, place: int, at: int)
    ensures
        0 <= place < nodes.len() && nodes[place].name == "action"@ && !nodes[place].namespaced
            ==> actions_of(nodes).contains(action_of(nodes[place])),
        0 <= at < actions_of(nodes).len() ==> exists|other: int|
            {
                &&& 0 <= other < nodes.len()
                &&& (#[trigger] nodes[other]).name == "action"@
                &&& !nodes[other].namespaced
                &&& actions_of(nodes)[at] == action_of(nodes[other])
            },
{
    let keep = is_action();
    if 0 <= place < nodes.len() && keep(nodes[place]) {
        let found = crate::lists::kept_is_found(nodes, keep, place);
        assert(actions_of(nodes)[found] == action_of(nodes[place]));
    }
    if 0 <= at < actions_of(nodes).len() {
        let other = crate::lists::kept_is_there(nodes, keep, at);
        assert(nodes[other].name == "action"@);
        assert(actions_of(nodes)[at] == action_of(nodes[other]));
    }
}

/// A line begins behind the last end of a line before a place, or where the text begins.
proof fn lines_begin_behind_an_end(bytes: Seq<u8>, at: int)
    requires
        0 <= at <= bytes.len(),
    ensures
        0 <= line_start(bytes, at) <= at,
        line_start(bytes, at) > 0 ==> bytes[line_start(bytes, at) - 1] == 10,
        forall|place: int| line_start(bytes, at) <= place < at ==> #[trigger] bytes[place] != 10,
    decreases at,
{
    if at > 0 && bytes[at - 1] != 10 {
        lines_begin_behind_an_end(bytes, at - 1);
    }
}

/// A line ends at the first end of a line from a place on.
proof fn lines_end_at_the_first_end(bytes: Seq<u8>, at: int)
    requires
        0 <= at <= bytes.len(),
    ensures
        match line_end(bytes, at) {
            Some(last) => at <= last < bytes.len() && bytes[last] == 10,
            None => true,
        },
    decreases bytes.len() - at,
{
    if at < bytes.len() && bytes[at] != 10 {
        lines_end_at_the_first_end(bytes, at + 1);
    }
}

/// A stretch only ever grows over white space: what is taken with an action is the action and the
/// white space on its own lines.
pub proof fn actions_take_only_white_space_along(bytes: Seq<u8>, start: int, end: int, at: int)
    requires
        0 <= start <= end <= bytes.len(),
        bytes.len() < usize::MAX,
    ensures
        ({
            let span = whole_line(bytes, start, end);
            &&& span.start <= start
            &&& end <= span.end <= bytes.len()
            &&& span.start <= at < span.end && !(start <= at < end) ==> is_blank(bytes[at])
            &&& span.start < start && span.start > 0 ==> bytes[span.start - 1] == 10
            &&& span.end > end ==> bytes[span.end - 1] == 10
        }),
{
    lines_begin_behind_an_end(bytes, start);
    lines_end_at_the_first_end(bytes, end);
    let span = whole_line(bytes, start, end);
    if span.start <= at < start {
        assert(is_blank(bytes[at]));
    }
    if end <= at < span.end {
        let last = line_end(bytes, end)->0;
        if at < last {
            assert(is_blank(bytes[at]));
        }
    }
}

/// Every byte of a managed action is in one of the stretches that are replaced, and every stretch is
/// that of a managed action: the user's own actions give none.
pub proof fn managed_actions_are_replaced(bytes: Seq<u8>, actions: Seq<ActionView>, at: int, span: int)
    ensures
        0 <= at < actions.len() && is_managed(actions[at].id) ==> managed_spans(
            bytes,
            actions,
        ).contains(whole_line(bytes, actions[at].start, actions[at].end)),
        0 <= span < managed_spans(bytes, actions).len() ==> exists|action: int|
            {
                &&& 0 <= action < actions.len()
                &&& is_managed((#[trigger] actions[action]).id)
                &&& managed_spans(bytes, actions)[span] == whole_line(
                    bytes,
                    actions[action].start,
                    actions[action].end,
                )
            },
        managed_spans(bytes, actions).len() + custom_count(actions) == actions.len(),
    decreases actions.len(),
{
    if actions.len() > 0 {
        let front = actions.drop_last();
        let before = managed_spans(bytes, front);
        let whole = managed_spans(bytes, actions);
        let last = actions.len() - 1;
        managed_actions_are_replaced(bytes, front, at, span);
        if is_managed(actions.last().id) {
            let added = action_span(bytes, actions.last());
            added_spans_are_there(before, added, added);
            if 0 <= at < last && is_managed(actions[at].id) {
                assert(front[at] == actions[at]);
                added_spans_are_there(
                    before,
                    added,
                    whole_line(bytes, actions[at].start, actions[at].end),
                );
            }
            if 0 <= span < whole.len() {
                added_spans_are_there(before, added, whole[span]);
                assert(whole.contains(whole[span]));
                if whole[span] == added {
                    assert(is_managed(actions[last].id));
                } else {
                    let place = choose|place: int|
                        0 <= place < before.len() && before[place] == whole[span];
                    managed_actions_are_replaced(bytes, front, at, place);
                    let action = choose|action: int|
                        {
                            &&& 0 <= action < front.len()
                            &&& is_managed((#[trigger] front[action]).id)
                            &&& before[place] == whole_line(
                                bytes,
                                front[action].start,
                                front[action].end,
                            )
                        };
                    assert(actions[action] == front[action]);
                }
            }
        } else {
            if 0 <= at < last {
                assert(front[at] == actions[at]);
            }
            if 0 <= span < whole.len() {
                let action = choose|action: int|
                    {
                        &&& 0 <= action < front.len()
                        &&& is_managed((#[trigger] front[action]).id)
                        &&& before[span] == whole_line(
                            bytes,
                            front[action].start,
                            front[action].end,
                        )
                    };
                assert(actions[action] == front[action]);
            }
        }
    }
}

/// Adding a stretch adds that one and no other.
proof fn added_spans_are_there(spans: Seq<Span>, span: Span, other: Span)
    ensures
        with_span(spans, span).contains(other) <==> spans.contains(other) || other == span,
        with_span(spans, span).len() == spans.len() + 1,
    decreases spans.len(),
{
    let whole = with_span(spans, span);
    if spans.len() == 0 || spans.last().start <= span.start {
        assert(whole[spans.len() as int] == span);
        if spans.contains(other) {
            let at = choose|at: int| 0 <= at < spans.len() && spans[at] == other;
            assert(whole[at] == other);
        }
        if whole.contains(other) && other != span {
            let at = choose|at: int| 0 <= at < whole.len() && whole[at] == other;
            assert(spans[at] == other);
        }
    } else {
        let front = spans.drop_last();
        let inner = with_span(front, span);
        added_spans_are_there(front, span, other);
        assert(whole[inner.len() as int] == spans.last());
        assert(spans[spans.len() - 1] == spans.last());
        if inner.contains(other) {
            let at = choose|at: int| 0 <= at < inner.len() && inner[at] == other;
            assert(whole[at] == other);
        }
        if whole.contains(other) && other != spans.last() {
            let at = choose|at: int| 0 <= at < whole.len() && whole[at] == other;
            assert(inner[at] == other);
        }
        if front.contains(other) {
            let at = choose|at: int| 0 <= at < front.len() && front[at] == other;
            assert(spans[at] == other);
        }
        if spans.contains(other) && other != spans.last() {
            let at = choose|at: int| 0 <= at < spans.len() && spans[at] == other;
            assert(front[at] == other);
        }
    }
}

/// The last place of a part holds it, and a part that a text ends with is found at its end.
pub proof fn parts_are_found_last(text: Seq<u8>, part: Seq<u8>)
    ensures
        match last_place(text, part) {
            Some(at) => 0 <= at <= text.len() - part.len() && text.subrange(at, at + part.len())
                == part,
            None => !finishes_with(text, part),
        },
        finishes_with(text, part) ==> last_place(text, part) == Some(text.len() - part.len()),
        last_place(text + part, part) == Some(text.len() as int),
    decreases text.len(),
{
    let whole = text + part;
    assert(whole.skip(whole.len() - part.len()) =~= part);
    if finishes_with(text, part) {
        let at = text.len() - part.len();
        assert(text.subrange(at, at + part.len()) =~= text.skip(at));
    } else if text.len() > 0 {
        let front = text.drop_last();
        parts_are_found_last(front, part);
        if let Some(at) = last_place(front, part) {
            assert(text.subrange(at, at + part.len()) =~= front.subrange(at, at + part.len()));
        }
    }
}

/// A list is used only where its outermost element is the one for actions, is closed, and the managed
/// actions in it do not overlap; one that declares anything, or holds a zero, is not read at all.
pub proof fn only_plain_lists_are_used(bytes: Seq<u8>, root: RootView, xml: Seq<char>)
    ensures
        match actions_in(bytes, root) {
            Ok(parsed) => {
                &&& root.name == "actions"@
                &&& !root.namespaced
                &&& parsed.actions == actions_of(root.children)
                &&& parsed.root_end == root.end
                &&& parsed.custom_action_count == custom_count(parsed.actions)
                &&& parsed.managed_ranges == managed_spans(bytes, parsed.actions)
                &&& forall|at: int|
                    0 <= at < parsed.managed_ranges.len() - 1 ==> (
                    #[trigger] parsed.managed_ranges[at]).end <= parsed.managed_ranges[at + 1].start
            },
            Err(error) => error is Root || error is Unclosed || error is Overlap,
        },
        root.name != "actions"@ || root.namespaced ==> actions_in(bytes, root) == Err::<
            ActionsView,
            ActionsError,
        >(ActionsError::Root),
        vstd::utf8::encode_utf8(xml).contains(0u8) ==> parsed_actions(xml) == Err::<
            ActionsView,
            ActionsError,
        >(ActionsError::Nul),
        !vstd::utf8::encode_utf8(xml).contains(0u8) && (holds_part(xml, "<!DOCTYPE"@) || holds_part(
            xml,
            "<!ENTITY"@,
        )) ==> parsed_actions(xml) == Err::<ActionsView, ActionsError>(ActionsError::Declarations),
        xml_root(xml) is None ==> parsed_actions(xml) is Err,
{
}

/// The managed actions are taken only from a text in which each of the two runs its own command,
/// under its own name, for single AppImages.
pub proof fn managed_actions_run_fixed_commands(xml: Seq<char>)
    requires
        managed_fragment(xml) is Ok,
    ensures
        ({
            let actions = parsed_actions(xml)->Ok_0.actions;
            let first = first_action(actions, "buzzardos-appimage-add-applications-v1"@);
            let second = first_action(actions, "buzzardos-appimage-add-desktop-v1"@);
            &&& first is Some
            &&& (first->0).command == Some(
                "/usr/libexec/buzzardos-shortcut-helper register-applications %f"@,
            )
            &&& (first->0).name == Some("Add to Applications"@)
            &&& (first->0).patterns == Some("*.AppImage;*.appimage"@)
            &&& (first->0).range_value == Some("1-1"@)
            &&& (first->0).other_files
            &&& second is Some
            &&& (second->0).command == Some(
                "/usr/libexec/buzzardos-shortcut-helper register-desktop %f"@,
            )
            &&& (second->0).name == Some("Add Desktop Shortcut"@)
            &&& (second->0).patterns == Some("*.AppImage;*.appimage"@)
            &&& (second->0).range_value == Some("1-1"@)
            &&& (second->0).other_files
        }),
{
}

/// Each managed action stands on a line of its own, as it is in the text that it is taken from.
pub proof fn managed_actions_stand_on_their_own_lines(bytes: Seq<u8>, actions: Seq<ActionView>)
    requires
        actions.len() > 0,
    ensures
        ({
            let source = bytes.subrange(actions.last().start, actions.last().end);
            let whole = fragment_of(bytes, actions);
            let before = fragment_of(bytes, actions.drop_last());
            &&& whole.take(before.len() as int) == before
            &&& whole.skip(before.len() as int) == seq![' ' as u8, ' ' as u8] + source + seq![
                '\n' as u8,
            ]
        }),
        line_ended(fragment_of(bytes, actions)) == fragment_of(bytes, actions),
{
    let source = bytes.subrange(actions.last().start, actions.last().end);
    let whole = fragment_of(bytes, actions);
    let before = fragment_of(bytes, actions.drop_last());
    assert(whole.take(before.len() as int) =~= before);
    assert(whole.skip(before.len() as int) =~= seq![32u8, 32u8] + source + seq![10u8]);
}

/// A line is ended exactly once.
pub proof fn lines_are_ended_once(bytes: Seq<u8>)
    ensures
        line_ended(bytes).len() > 0,
        line_ended(bytes).last() == '\n' as u8,
        line_ended(line_ended(bytes)) == line_ended(bytes),
        bytes.len() > 0 && bytes.last() == '\n' as u8 ==> line_ended(bytes) == bytes,
        !(bytes.len() > 0 && bytes.last() == '\n' as u8) ==> line_ended(bytes).drop_last() == bytes,
{
    assert(bytes.push(10u8).drop_last() =~= bytes);
}

/// Nothing is installed where the directory for settings is none, a list is too large or no text, or
/// one of the two cannot be used.
pub proof fn only_lists_that_can_be_used_are_changed(
    base: Seq<u8>,
    template: Seq<u8>,
    original: Seq<u8>,
)
    ensures
        installed(base, template, original) is Ok ==> {
            &&& base.len() > 0 && base[0] == '/' as u8
            &&& template.len() <= MAX_UCA_BYTES
            &&& original.len() <= MAX_UCA_BYTES
            &&& vstd::utf8::valid_utf8(template)
            &&& vstd::utf8::valid_utf8(original)
            &&& managed_fragment(vstd::utf8::decode_utf8(template)) is Ok
            &&& parsed_actions(vstd::utf8::decode_utf8(original)) is Ok
        },
        !(base.len() > 0 && base[0] == '/' as u8) ==> installed(base, template, original) == Err::<
            (Seq<u8>, int),
            ThunarActionInstallError,
        >(ThunarActionInstallError::InvalidConfigBase),
{
}

/// The first action with an identifier has it, and none where no action has it.
pub proof fn actions_are_found_by_identifier(actions: Seq<ActionView>, id: Seq<char>)
    ensures
        match first_action(actions, id) {
            Some(action) => action.id == id && actions.contains(action),
            None => forall|at: int| 0 <= at < actions.len() ==> (#[trigger] actions[at]).id != id,
        },
    decreases actions.len(),
{
    if actions.len() > 0 && actions[0].id != id {
        let rest = actions.skip(1);
        actions_are_found_by_identifier(rest, id);
        match first_action(rest, id) {
            Some(action) => {
                let at = choose|at: int| 0 <= at < rest.len() && rest[at] == action;
                assert(actions[at + 1] == action);
            },
            None => {
                assert forall|at: int| 0 <= at < actions.len() implies (#[trigger] actions[at]).id
                    != id by {
                    if at > 0 {
                        assert(rest[at - 1].id != id);
                    }
                }
            },
        }
    }
}

} // verus!
