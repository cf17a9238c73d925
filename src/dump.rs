//! The full-tree dump: every node kind and every token of the syntax tree,
//! nested by depth, driven by the enter and leave events of a pre-order walk.
use vstd::prelude::*;
use crate::escape::quoted;
use crate::text::{decimal_of, field_line, lines_view, push_char, push_decimal, push_line, push_str, spaces};

verus! {

/// One event of a pre-order walk over the syntax tree.
pub enum TreeEvent {
    /// Entering a token, with its starting line and its source text, `None`
    /// where that text could not be had.
    EnterToken { text: Option<String>, line: usize },
    /// Entering a whitespace node (spaces, newlines, comments).
    EnterWhiteSpace,
    /// Entering any other node, with the name of its kind.
    EnterNode { kind: String },
    /// Leaving a whitespace node.
    LeaveWhiteSpace,
    /// Leaving a token or any other node.
    Leave,
}

/// Depth at which the dump starts, to sit under the report's own nesting.
pub const BASE_DEPTH: usize = 3;

/// Depth after `ev`: entering a token or node goes one deeper, leaving one
/// comes back; whitespace events leave it as it is.
pub open spec fn next_depth(depth: int, ev: TreeEvent) -> int {
    match ev {
        TreeEvent::EnterToken { .. } | TreeEvent::EnterNode { .. } => depth + 1,
        TreeEvent::Leave => depth - 1,
        _ => depth,
    }
}

/// Whether output is suppressed after `ev`: entering whitespace suppresses
/// it unless whitespace is included, leaving whitespace restores it.
pub open spec fn next_skip(skip: bool, include_whitespace: bool, ev: TreeEvent) -> bool {
    match ev {
        TreeEvent::EnterWhiteSpace => if include_whitespace {
            skip
        } else {
            true
        },
        TreeEvent::LeaveWhiteSpace => false,
        _ => skip,
    }
}

/// Depth after a sequence of events, from the base depth.
pub open spec fn depth_after(events: Seq<TreeEvent>) -> int
    decreases events.len(),
{
    if events.len() == 0 {
        BASE_DEPTH as int
    } else {
        next_depth(depth_after(events.drop_last()), events.last())
    }
}

/// Whether output is suppressed after a sequence of events.
pub open spec fn skip_after(events: Seq<TreeEvent>, include_whitespace: bool) -> bool
    decreases events.len(),
{
    if events.len() == 0 {
        false
    } else {
        next_skip(skip_after(events.drop_last(), include_whitespace), include_whitespace, events.last())
    }
}

/// Two spaces per level.
pub open spec fn indent(depth: nat) -> Seq<char> {
    spaces(2 * depth)
}

/// The lines that `ev` prints at `depth`: a token's text and line, or a
/// node's kind; nothing while suppressed, for a token without text, or for
/// other events.
pub open spec fn event_lines(depth: nat, skip: bool, ev: TreeEvent) -> Seq<Seq<char>> {
    if skip {
        Seq::empty()
    } else {
        match ev {
            TreeEvent::EnterToken { text: Some(text), line } => seq![
                indent(depth) + "- Token: "@ + quoted(text@),
                indent(depth) + "  Line: "@ + decimal_of(line as nat),
            ],
            TreeEvent::EnterNode { kind } => seq![indent(depth) + seq!['-', ' '] + kind@ + seq![':']],
            _ => Seq::empty(),
        }
    }
}

/// The lines that event `k` of `events` prints.
pub open spec fn lines_at(events: Seq<TreeEvent>, include_whitespace: bool, k: int) -> Seq<Seq<char>> {
    let pre = events.subrange(0, k);
    event_lines(depth_after(pre) as nat, skip_after(pre, include_whitespace), events[k])
}

/// The whole dump of a sequence of events.
pub open spec fn dump_lines(events: Seq<TreeEvent>, include_whitespace: bool) -> Seq<Seq<char>>
    decreases events.len(),
{
    if events.len() == 0 {
        Seq::empty()
    } else {
        let pre = events.drop_last();
        dump_lines(pre, include_whitespace) + event_lines(
            depth_after(pre) as nat,
            skip_after(pre, include_whitespace),
            events.last(),
        )
    }
}

/// No prefix of `events` leaves more nodes than it entered below the base.
pub open spec fn well_nested(events: Seq<TreeEvent>) -> bool {
    forall|k: int| 0 <= k <= events.len() ==> depth_after(#[trigger] events.subrange(0, k)) >= 0
}

/// Number of tokens and nodes entered in `events`.
pub open spec fn enters(events: Seq<TreeEvent>) -> nat
    decreases events.len(),
{
    if events.len() == 0 {
        0
    } else {
        enters(events.drop_last()) + match events.last() {
            TreeEvent::EnterToken { .. } | TreeEvent::EnterNode { .. } => 1nat,
            _ => 0nat,
        }
    }
}

/// Number of tokens and nodes left in `events`.
pub open spec fn leaves(events: Seq<TreeEvent>) -> nat
    decreases events.len(),
{
    if events.len() == 0 {
        0
    } else {
        leaves(events.drop_last()) + match events.last() {
            TreeEvent::Leave => 1nat,
            _ => 0nat,
        }
    }
}

/// Each token or node entered is left, and never before it was entered.
pub open spec fn balanced(events: Seq<TreeEvent>) -> bool {
    &&& enters(events) == leaves(events)
    &&& forall|k: int|
        0 <= k <= events.len() ==> leaves(#[trigger] events.subrange(0, k)) <= enters(
            events.subrange(0, k),
        )
}

proof fn lemma_depth_counts(events: Seq<TreeEvent>)
    ensures
        depth_after(events) == BASE_DEPTH + enters(events) - leaves(events),
    decreases events.len(),
{
    if events.len() > 0 {
        lemma_depth_counts(events.drop_last());
    }
}

/// After a balanced sequence of events the depth is back at its start, and
/// it never fell below zero on the way, so the dump of it succeeds.
pub proof fn lemma_depth_returns(events: Seq<TreeEvent>)
    requires
        balanced(events),
    ensures
        depth_after(events) == BASE_DEPTH,
        well_nested(events),
{
    lemma_depth_counts(events);
    assert forall|k: int| 0 <= k <= events.len() implies depth_after(
        #[trigger] events.subrange(0, k),
    ) >= 0 by {
        lemma_depth_counts(events.subrange(0, k));
    }
}

proof fn lemma_skip_latched(events: Seq<TreeEvent>, i: int, k: int)
    requires
        0 <= i < k <= events.len(),
        events[i] is EnterWhiteSpace,
        forall|j: int| i < j < k ==> !(#[trigger] events[j] is LeaveWhiteSpace),
    ensures
        skip_after(events.subrange(0, k), false),
    decreases k,
{
    let pre = events.subrange(0, k);
    assert(pre.drop_last() =~= events.subrange(0, k - 1));
    if k > i + 1 {
        lemma_skip_latched(events, i, k - 1);
    }
}

/// Without whitespace included, nothing entered inside a whitespace node,
/// before that node is left, prints a line.
pub proof fn lemma_whitespace_hidden(events: Seq<TreeEvent>, i: int, k: int)
    requires
        0 <= i < k < events.len(),
        events[i] is EnterWhiteSpace,
        forall|j: int| i < j < k ==> !(#[trigger] events[j] is LeaveWhiteSpace),
    ensures
        lines_at(events, false, k) == Seq::<Seq<char>>::empty(),
{
    lemma_skip_latched(events, i, k);
}

proof fn lemma_never_skip(events: Seq<TreeEvent>)
    ensures
        !skip_after(events, true),
    decreases events.len(),
{
    if events.len() > 0 {
        lemma_never_skip(events.drop_last());
    }
}

/// With whitespace included, every node and every token with text that is
/// entered prints its lines, inside whitespace nodes too.
pub proof fn lemma_whitespace_shown(events: Seq<TreeEvent>, k: int)
    requires
        0 <= k < events.len(),
        (events[k] is EnterToken && events[k]->EnterToken_text is Some) || events[k] is EnterNode,
    ensures
        lines_at(events, true, k).len() > 0,
{
    lemma_never_skip(events.subrange(0, k));
}

fn push_indent(out: &mut String, depth: usize)
    ensures
        final(out)@ == old(out)@ + indent(depth as nat),
{
    let mut i: usize = 0;
    while i < depth
        invariant
            i <= depth,
            out@ == old(out)@ + spaces(2 * i as nat),
        decreases depth - i,
    {
        push_char(out, ' ');
        push_char(out, ' ');
        assert(spaces(2 * (i + 1) as nat) =~= spaces(2 * i as nat).push(' ').push(' '));
        i = i + 1;
    }
}

fn push_event_lines(out: &mut Vec<String>, depth: usize, skip: bool, ev: &TreeEvent)
    ensures
        lines_view(final(out)@) == lines_view(old(out)@) + event_lines(depth as nat, skip, *ev),
{
    let ghost start = lines_view(out@);
    if !skip {
        match ev {
            TreeEvent::EnterToken { text: Some(text), line } => {
                let mut a = String::new();
                push_indent(&mut a, depth);
                let f = field_line("- Token: ", text.as_str());
                push_str(&mut a, f.as_str());
                let ghost a0 = a@;
                push_line(out, a);
                let mut b = String::new();
                push_indent(&mut b, depth);
                push_str(&mut b, "  Line: ");
                push_decimal(&mut b, *line);
                let ghost b0 = b@;
                push_line(out, b);
                assert(lines_view(out@) =~= start + seq![a0, b0]);
                assert(a0 =~= indent(depth as nat) + "- Token: "@ + quoted(text@));
                assert(b0 =~= indent(depth as nat) + "  Line: "@ + decimal_of(*line as nat));
            },
            TreeEvent::EnterNode { kind } => {
                let mut a = String::new();
                push_indent(&mut a, depth);
                push_char(&mut a, '-');
                push_char(&mut a, ' ');
                push_str(&mut a, kind.as_str());
                push_char(&mut a, ':');
                let ghost a0 = a@;
                push_line(out, a);
                assert(lines_view(out@) =~= start + seq![a0]);
                assert(a0 =~= indent(depth as nat) + seq!['-', ' '] + kind@ + seq![':']);
            },
            _ => {},
        }
    }
    assert(lines_view(out@) =~= start + event_lines(depth as nat, skip, *ev));
}

/// Dumps every event's lines in order. Returns `None` where some `Leave`
/// would take the depth below zero, which no walk over a tree does.
pub fn print_full_tree(events: &Vec<TreeEvent>, include_whitespace: bool) -> (r: Option<Vec<String>>)
    requires
        events@.len() + BASE_DEPTH < usize::MAX,
    ensures
        r is Some <==> well_nested(events@),
        r is Some ==> lines_view(r->0@) == dump_lines(events@, include_whitespace),
{
    let mut out: Vec<String> = Vec::new();
    let mut depth: usize = BASE_DEPTH;
    let mut skip = false;
    let mut k: usize = 0;
    assert(lines_view(out@) =~= Seq::<Seq<char>>::empty());
    while k < events.len()
        invariant
            k <= events@.len(),
            events@.len() + BASE_DEPTH < usize::MAX,
            depth as int == depth_after(events@.subrange(0, k as int)),
            depth <= BASE_DEPTH + k,
            skip == skip_after(events@.subrange(0, k as int), include_whitespace),
            forall|j: int| 0 <= j <= k ==> depth_after(#[trigger] events@.subrange(0, j)) >= 0,
            lines_view(out@) == dump_lines(events@.subrange(0, k as int), include_whitespace),
        decreases events@.len() - k,
    {
        let ev = &events[k];
        let ghost pre = events@.subrange(0, k as int);
        assert(events@.subrange(0, k + 1).drop_last() =~= pre);
        push_event_lines(&mut out, depth, skip, ev);
        match ev {
            TreeEvent::EnterToken { .. } | TreeEvent::EnterNode { .. } => {
                depth = depth + 1;
            },
            TreeEvent::EnterWhiteSpace => {
                if !include_whitespace {
                    skip = true;
                }
            },
            TreeEvent::LeaveWhiteSpace => {
                skip = false;
            },
            TreeEvent::Leave => {
                if depth == 0 {
                    assert(!well_nested(events@)) by {
                        assert(depth_after(events@.subrange(0, k + 1)) < 0);
                    }
                    return None;
                }
                depth = depth - 1;
            },
        }
        k = k + 1;
    }
    assert(events@.subrange(0, events@.len() as int) =~= events@);
    Some(out)
}

} // verus!
