//! The structural listing: scopes (modules, packages, interfaces) and the
//! instances and imports found within each of them.
use vstd::prelude::*;
use crate::escape::quoted;
use crate::text::{field_line, lines_view, push_line};

verus! {

/// A recognised node of the syntax tree, with its identifiers resolved to
/// source text; `None` where the node holds no identifier or its text could
/// not be had.
pub enum ScopeItem {
    /// A module declaration, in either port-list form.
    Module { name: Option<String> },
    /// A package declaration.
    Package { name: Option<String> },
    /// An interface declaration.
    Interface { name: Option<String> },
    /// A module instantiation: the module instantiated and the instance name.
    Instance { module: Option<String>, instance: Option<String> },
    /// A package import, or a reference through a class or package scope.
    Import { package: Option<String> },
}

/// The report lines that stand for one item.
pub open spec fn item_lines(item: ScopeItem) -> Seq<Seq<char>> {
    match item {
        ScopeItem::Module { name: Some(n) } => seq![
            "      - mod_name: "@ + quoted(n@),
            "        insts:"@,
        ],
        ScopeItem::Package { name: Some(n) } => seq![
            "      - pkg_name: "@ + quoted(n@),
            "        insts:"@,
        ],
        ScopeItem::Interface { name: Some(n) } => seq![
            "      - intf_name: "@ + quoted(n@),
            "        insts:"@,
        ],
        ScopeItem::Instance { module: Some(m), instance: Some(i) } => seq![
            "          - mod_name: "@ + quoted(m@),
            "            inst_name: "@ + quoted(i@),
        ],
        ScopeItem::Import { package: Some(p) } => seq!["          - pkg_name: "@ + quoted(p@)],
        _ => Seq::empty(),
    }
}

/// The report lines for a sequence of items, in order.
pub open spec fn defs_lines(items: Seq<ScopeItem>) -> Seq<Seq<char>>
    decreases items.len(),
{
    if items.len() == 0 {
        Seq::empty()
    } else {
        defs_lines(items.drop_last()) + item_lines(items.last())
    }
}

fn push_item_lines(out: &mut Vec<String>, item: &ScopeItem)
    ensures
        lines_view(final(out)@) == lines_view(old(out)@) + item_lines(*item),
{
    let ghost start = lines_view(out@);
    match item {
        ScopeItem::Module { name: Some(n) } => {
            push_line(out, field_line("      - mod_name: ", n.as_str()));
            push_line(out, String::from_str("        insts:"));
        },
        ScopeItem::Package { name: Some(n) } => {
            push_line(out, field_line("      - pkg_name: ", n.as_str()));
            push_line(out, String::from_str("        insts:"));
        },
        ScopeItem::Interface { name: Some(n) } => {
            push_line(out, field_line("      - intf_name: ", n.as_str()));
            push_line(out, String::from_str("        insts:"));
        },
        ScopeItem::Instance { module: Some(m), instance: Some(i) } => {
            push_line(out, field_line("          - mod_name: ", m.as_str()));
            push_line(out, field_line("            inst_name: ", i.as_str()));
        },
        ScopeItem::Import { package: Some(p) } => {
            push_line(out, field_line("          - pkg_name: ", p.as_str()));
        },
        _ => {},
    }
    assert(lines_view(out@) =~= start + item_lines(*item));
}

/// The structural listing of one file: for each item in tree order, the
/// lines that stand for it; an item missing any identifier its record needs
/// adds nothing.
pub fn analyze_defs(items: &Vec<ScopeItem>) -> (r: Vec<String>)
    ensures
        lines_view(r@) == defs_lines(items@),
{
    let mut out: Vec<String> = Vec::new();
    let mut k: usize = 0;
    while k < items.len()
        invariant
            k <= items@.len(),
            lines_view(out@) == defs_lines(items@.subrange(0, k as int)),
        decreases items@.len() - k,
    {
        push_item_lines(&mut out, &items[k]);
        assert(items@.subrange(0, k + 1).drop_last() =~= items@.subrange(0, k as int));
        k = k + 1;
    }
    assert(items@.subrange(0, items@.len() as int) =~= items@);
    out
}

} // verus!
