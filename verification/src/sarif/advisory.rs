//! Advisories as markdown.

use crate::diag::advisory::{Advisory, Affected, AffectedFunction, Metadata};
use crate::sarif::model::Message;
use vstd::prelude::*;

verus! {

/// The texts between the parts of an advisory.
#[derive(Clone, Copy)]
pub struct AdvisoryStyle {
    pub before_title: &'static str,
    pub after_title: &'static str,
    pub description: &'static str,
    pub after_description: &'static str,
    pub unaffected: &'static str,
    pub after_unaffected: &'static str,
    pub patched: &'static str,
    pub affected: &'static str,
    pub arches: &'static str,
    pub systems: &'static str,
}

/// The id of an advisory, as a link where it has a url.
pub open spec fn heading(meta: Metadata) -> Seq<char> {
    match meta.url {
        Some(url) => "["@ + meta.id@ + "]("@ + url@ + ")"@,
        None => meta.id@,
    }
}

/// A list of code, one item a line.
pub open spec fn code_list(items: Seq<String>) -> Seq<char>
    decreases items.len(),
{
    if items.len() == 0 {
        Seq::empty()
    } else {
        code_list(items.drop_last()) + "- `"@ + items.last()@ + "`\n"@
    }
}

/// A list, one item a line.
pub open spec fn plain_list(items: Seq<String>) -> Seq<char>
    decreases items.len(),
{
    if items.len() == 0 {
        Seq::empty()
    } else {
        plain_list(items.drop_last()) + "- "@ + items.last()@ + "\n"@
    }
}

/// Pieces of code in a row, with commas between them.
pub open spec fn code_row(items: Seq<String>) -> Seq<char>
    decreases items.len(),
{
    if items.len() == 0 {
        Seq::empty()
    } else {
        code_row(items.drop_last()) + (if items.len() > 1 {
            ", "@
        } else {
            Seq::empty()
        }) + "`"@ + items.last()@ + "`"@
    }
}

/// The rows of the table of functions.
pub open spec fn function_rows(functions: Seq<AffectedFunction>) -> Seq<char>
    decreases functions.len(),
{
    if functions.len() == 0 {
        Seq::empty()
    } else {
        function_rows(functions.drop_last()) + "|`"@ + functions.last().path@ + "`|"@ + code_row(
            functions.last().versions@,
        ) + "|\n"@
    }
}

/// A part of an advisory, which is left out where there is nothing to list.
pub open spec fn section(
    title: Seq<char>,
    items: nat,
    body: Seq<char>,
    end: Seq<char>,
) -> Seq<char> {
    if items == 0 {
        Seq::empty()
    } else {
        title + body + end
    }
}

/// What an advisory affects.
pub open spec fn affected_text(style: AdvisoryStyle, affected: Affected) -> Seq<char> {
    style.affected@ + section(
        "| Functions | Versions |\n|---|---|\n"@,
        affected.functions@.len(),
        function_rows(affected.functions@),
        "\n"@,
    ) + section(
        style.arches@,
        affected.arch@.len(),
        plain_list(affected.arch@),
        "\n"@,
    ) + section(style.systems@, affected.os@.len(), plain_list(affected.os@), "\n"@)
}

/// An advisory as markdown.
pub open spec fn advisory_text(style: AdvisoryStyle, advisory: Advisory) -> Seq<char> {
    "# "@ + heading(advisory.metadata) + style.before_title@ + advisory.metadata.title@
        + style.after_title@ + style.description@ + advisory.metadata.description@
        + style.after_description@ + section(
        style.unaffected@,
        advisory.versions.unaffected@.len(),
        code_list(advisory.versions.unaffected@),
        style.after_unaffected@,
    ) + section(
        style.patched@,
        advisory.versions.patched@.len(),
        code_list(advisory.versions.patched@),
        "\n"@,
    ) + (match advisory.affected {
        Some(affected) => affected_text(style, affected),
        None => Seq::empty(),
    })
}

fn push_heading(md: &mut String, meta: &Metadata)
    ensures
        final(md)@ == old(md)@ + heading(*meta),
{
    match &meta.url {
        Some(url) => {
            md.append("[");
            md.append(meta.id.as_str());
            md.append("](");
            md.append(url.as_str());
            md.append(")");
        },
        None => {
            md.append(meta.id.as_str());
        },
    }
    assert(md@ =~= old(md)@ + heading(*meta));
}

fn push_code_list(md: &mut String, items: &Vec<String>)
    ensures
        final(md)@ == old(md)@ + code_list(items@),
{
    let mut i: usize = 0;
    assert(md@ =~= old(md)@ + code_list(items@.take(0)));
    while i < items.len()
        invariant
            i <= items.len(),
            md@ == old(md)@ + code_list(items@.take(i as int)),
        decreases items.len() - i,
    {
        md.append("- `");
        md.append(items[i].as_str());
        md.append("`\n");
        i += 1;
        assert(items@.take(i as int).drop_last() =~= items@.take(i - 1));
        assert(md@ =~= old(md)@ + code_list(items@.take(i as int)));
    }
    assert(items@.take(i as int) =~= items@);
}

fn push_plain_list(md: &mut String, items: &Vec<String>)
    ensures
        final(md)@ == old(md)@ + plain_list(items@),
{
    let mut i: usize = 0;
    assert(md@ =~= old(md)@ + plain_list(items@.take(0)));
    while i < items.len()
        invariant
            i <= items.len(),
            md@ == old(md)@ + plain_list(items@.take(i as int)),
        decreases items.len() - i,
    {
        md.append("- ");
        md.append(items[i].as_str());
        md.append("\n");
        i += 1;
        assert(items@.take(i as int).drop_last() =~= items@.take(i - 1));
        assert(md@ =~= old(md)@ + plain_list(items@.take(i as int)));
    }
    assert(items@.take(i as int) =~= items@);
}

fn push_code_row(md: &mut String, items: &Vec<String>)
    ensures
        final(md)@ == old(md)@ + code_row(items@),
{
    let mut i: usize = 0;
    assert(md@ =~= old(md)@ + code_row(items@.take(0)));
    while i < items.len()
        invariant
            i <= items.len(),
            md@ == old(md)@ + code_row(items@.take(i as int)),
        decreases items.len() - i,
    {
        if i > 0 {
            md.append(", ");
        }
        md.append("`");
        md.append(items[i].as_str());
        md.append("`");
        i += 1;
        assert(items@.take(i as int).drop_last() =~= items@.take(i - 1));
        assert(md@ =~= old(md)@ + code_row(items@.take(i as int)));
    }
    assert(items@.take(i as int) =~= items@);
}

fn push_function_rows(md: &mut String, functions: &Vec<AffectedFunction>)
    ensures
        final(md)@ == old(md)@ + function_rows(functions@),
{
    let mut i: usize = 0;
    assert(md@ =~= old(md)@ + function_rows(functions@.take(0)));
    while i < functions.len()
        invariant
            i <= functions.len(),
            md@ == old(md)@ + function_rows(functions@.take(i as int)),
        decreases functions.len() - i,
    {
        md.append("|`");
        md.append(functions[i].path.as_str());
        md.append("`|");
        push_code_row(md, &functions[i].versions);
        md.append("|\n");
        i += 1;
        assert(functions@.take(i as int).drop_last() =~= functions@.take(i - 1));
        assert(md@ =~= old(md)@ + function_rows(functions@.take(i as int)));
    }
    assert(functions@.take(i as int) =~= functions@);
}

/// A part of an advisory as text.
fn section_text(title: &str, items: usize, body: String, end: &str) -> (text: String)
    ensures
        text@ == section(title@, items as nat, body@, end@),
{
    let mut text = String::new();
    if items > 0 {
        text.append(title);
        text.append(body.as_str());
        text.append(end);
    }
    assert(text@ =~= section(title@, items as nat, body@, end@));
    text
}

/// Appends what an advisory affects.
fn push_affected(md: &mut String, style: AdvisoryStyle, affected: &Affected)
    ensures
        final(md)@ == old(md)@ + affected_text(style, *affected),
{
    let mut rows = String::new();
    push_function_rows(&mut rows, &affected.functions);
    assert(rows@ =~= function_rows(affected.functions@));
    let functions = section_text(
        "| Functions | Versions |\n|---|---|\n",
        affected.functions.len(),
        rows,
        "\n",
    );
    let mut list = String::new();
    push_plain_list(&mut list, &affected.arch);
    assert(list@ =~= plain_list(affected.arch@));
    let arches = section_text(style.arches, affected.arch.len(), list, "\n");
    let mut list = String::new();
    push_plain_list(&mut list, &affected.os);
    assert(list@ =~= plain_list(affected.os@));
    let systems = section_text(style.systems, affected.os.len(), list, "\n");
    let mut text = String::from_str(style.affected);
    text.append(functions.as_str());
    text.append(arches.as_str());
    text.append(systems.as_str());
    assert(text@ == affected_text(style, *affected));
    md.append(text.as_str());
}

/// The lists of versions of an advisory, each in its own part.
fn versions_text(style: AdvisoryStyle, advisory: &Advisory) -> (parts: (String, String))
    ensures
        parts.0@ == section(
            style.unaffected@,
            advisory.versions.unaffected@.len(),
            code_list(advisory.versions.unaffected@),
            style.after_unaffected@,
        ),
        parts.1@ == section(
            style.patched@,
            advisory.versions.patched@.len(),
            code_list(advisory.versions.patched@),
            "\n"@,
        ),
{
    let versions = &advisory.versions;
    let mut list = String::new();
    push_code_list(&mut list, &versions.unaffected);
    assert(list@ =~= code_list(versions.unaffected@));
    let unaffected = section_text(
        style.unaffected,
        versions.unaffected.len(),
        list,
        style.after_unaffected,
    );
    let mut list = String::new();
    push_code_list(&mut list, &versions.patched);
    assert(list@ =~= code_list(versions.patched@));
    let patched = section_text(style.patched, versions.patched.len(), list, "\n");
    (unaffected, patched)
}

/// An advisory as markdown.
pub(crate) fn advisory_markdown(style: AdvisoryStyle, advisory: &Advisory) -> (md: String)
    ensures
        md@ == advisory_text(style, *advisory),
{
    let meta = &advisory.metadata;
    let (unaffected, patched) = versions_text(style, advisory);
    let mut md = String::from_str("# ");
    push_heading(&mut md, meta);
    md.append(style.before_title);
    md.append(meta.title.as_str());
    md.append(style.after_title);
    md.append(style.description);
    md.append(meta.description.as_str());
    md.append(style.after_description);
    md.append(unaffected.as_str());
    md.append(patched.as_str());
    match &advisory.affected {
        Some(affected) => {
            push_affected(&mut md, style, affected);
        },
        None => {
            assert(md@ + Seq::<char>::empty() =~= md@);
        },
    }
    md
}

/// The style of an advisory that stands alone.
pub open spec fn detailed_style() -> AdvisoryStyle {
    AdvisoryStyle {
        before_title: " - ",
        after_title: "\n\n",
        description: "## Description\n\n",
        after_description: "\n\n",
        unaffected: "## Unaffected\n\n",
        after_unaffected: "\n",
        patched: "## Patched\n\n",
        affected: "## Affected\n\n",
        arches: "### Arches\n\n",
        systems: "### Operating Systems\n\n",
    }
}

/// Formats an advisory diagnostic with detailed markdown
pub fn format_advisory_message(advisory: &Advisory) -> (message: Message)
    ensures
        message.text@ == advisory.metadata.title@,
        message.markdown matches Some(md) && md@ == advisory_text(detailed_style(), *advisory),
{
    let style = AdvisoryStyle {
        before_title: " - ",
        after_title: "\n\n",
        description: "## Description\n\n",
        after_description: "\n\n",
        unaffected: "## Unaffected\n\n",
        after_unaffected: "\n",
        patched: "## Patched\n\n",
        affected: "## Affected\n\n",
        arches: "### Arches\n\n",
        systems: "### Operating Systems\n\n",
    };
    let md = advisory_markdown(style, advisory);
    Message { text: advisory.metadata.title.clone(), markdown: Some(md) }
}

} // verus!
