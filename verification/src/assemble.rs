//! Merging bindings and headers into one ordered, numbered listing.
//!
//! The assembler walks the binding list in file order and keeps a queue of
//! pending headers.  Before a binding is emitted, the front pending header
//! is popped - opening a new section - when it stands earlier in the file
//! than the binding, but only while more than one header remains: the very
//! last pending header is never popped, an inherited quirk that is kept on
//! purpose.  Two built-in entries for editing the configuration files come
//! first, under a synthetic section zero.

use vstd::prelude::*;
use vstd::string::*;
use crate::parse::{Binding, BindingModel, Header, HeaderModel, binding_views, header_views};

verus! {

/// One line of the assembled listing, before rendering: the synthetic
/// title, a section header, one of the two built-in config-file entries, or
/// a numbered keybinding.
pub enum Entry {
    Title,
    SectionHeader { number: usize, title: String },
    Synthetic { item: usize, text: String, command: String },
    Item { section: usize, item: usize, binding: String, description: String, command: String },
}

/// The mathematical value of an [`Entry`].
pub enum EntryModel {
    Title,
    SectionHeader { number: nat, title: Seq<char> },
    Synthetic { item: nat, text: Seq<char>, command: Seq<char> },
    Item {
        section: nat,
        item: nat,
        binding: Seq<char>,
        description: Seq<char>,
        command: Seq<char>,
    },
}

impl View for Entry {
    type V = EntryModel;

    open spec fn view(&self) -> EntryModel {
        match self {
            Entry::Title => EntryModel::Title,
            Entry::SectionHeader { number, title } => EntryModel::SectionHeader {
                number: *number as nat,
                title: title@,
            },
            Entry::Synthetic { item, text, command } => EntryModel::Synthetic {
                item: *item as nat,
                text: text@,
                command: command@,
            },
            Entry::Item { section, item, binding, description, command } => EntryModel::Item {
                section: *section as nat,
                item: *item as nat,
                binding: binding@,
                description: description@,
                command: command@,
            },
        }
    }
}

/// The models of a list of entries.
pub open spec fn entry_views(es: Seq<Entry>) -> Seq<EntryModel> {
    es.map_values(|e: Entry| e@)
}

/// The section a listing line belongs to; the title and the built-in
/// entries belong to the synthetic section zero.
pub open spec fn entry_section(e: EntryModel) -> nat {
    match e {
        EntryModel::Title => 0,
        EntryModel::SectionHeader { number, .. } => number,
        EntryModel::Synthetic { .. } => 0,
        EntryModel::Item { section, .. } => section,
    }
}

/// A line that carries a within-section item number.
pub open spec fn is_numbered_item(e: EntryModel) -> bool {
    e is Synthetic || e is Item
}

/// The within-section item number of a numbered line.
pub open spec fn entry_item(e: EntryModel) -> nat {
    match e {
        EntryModel::Synthetic { item, .. } => item,
        EntryModel::Item { item, .. } => item,
        _ => 0,
    }
}

/// The listing produced for the given bindings, with `headers` still
/// pending, the current section number `section` and `item` items emitted in
/// it so far.  Before each binding, the front pending header opens a new
/// section when it stands earlier in the file than the binding - but only
/// while more than one header is pending: the last pending header never
/// opens a section.
pub open spec fn assemble_from(
    bindings: Seq<BindingModel>,
    headers: Seq<HeaderModel>,
    section: nat,
    item: nat,
) -> Seq<EntryModel>
    decreases bindings.len(),
{
    if bindings.len() == 0 {
        Seq::empty()
    } else {
        let b = bindings[0];
        if headers.len() > 1 && headers[0].source_line < b.source_line {
            seq![
                EntryModel::SectionHeader { number: section + 1, title: headers[0].title_text },
                EntryModel::Item {
                    section: section + 1,
                    item: 1,
                    binding: b.binding_text,
                    description: b.description_text,
                    command: b.command_text,
                },
            ] + assemble_from(bindings.drop_first(), headers.drop_first(), section + 1, 1)
        } else {
            seq![
                EntryModel::Item {
                    section,
                    item: item + 1,
                    binding: b.binding_text,
                    description: b.description_text,
                    command: b.command_text,
                },
            ] + assemble_from(bindings.drop_first(), headers, section, item + 1)
        }
    }
}

/// The full listing: the synthetic title, the two built-in entries for
/// editing the configuration files, then the bindings interleaved with the
/// headers they fall under.
pub open spec fn spec_entries(
    bindings: Seq<BindingModel>,
    headers: Seq<HeaderModel>,
) -> Seq<EntryModel> {
    seq![
        EntryModel::Title,
        EntryModel::Synthetic {
            item: 1,
            text: "bspwmrc"@,
            command: "alacritty -e nvim /home/pablo/.config/bspwm/bspwmrc"@,
        },
        EntryModel::Synthetic {
            item: 2,
            text: "sxhkdrc"@,
            command: "alacritty -e nvim /home/pablo/.config/sxhkd/sxhkdrc"@,
        },
    ] + assemble_from(bindings, headers, 0, 2)
}

/// Section numbers never decrease from one listing line to the next.
pub open spec fn sections_monotone(e: Seq<EntryModel>) -> bool {
    forall|i: int| 0 <= i < e.len() - 1 ==> entry_section(e[i + 1]) >= entry_section(#[trigger] e[i])
}

/// Every section number in the listing is at least `section`.
pub open spec fn sections_at_least(e: Seq<EntryModel>, section: nat) -> bool {
    forall|i: int| 0 <= i < e.len() ==> entry_section(#[trigger] e[i]) >= section
}

/// A section header line is followed by a binding line of the same section,
/// numbered 1: a section starts counting at 1.
pub open spec fn headers_open_sections(e: Seq<EntryModel>) -> bool {
    forall|i: int|
        0 <= i < e.len() && (#[trigger] e[i]) is SectionHeader ==> i + 1 < e.len() && e[i + 1]
            is Item && entry_section(e[i + 1]) == entry_section(e[i]) && entry_item(e[i + 1]) == 1
}

/// Two adjacent numbered lines lie in the same section and the second's
/// item number is exactly one more than the first's.
pub open spec fn items_count_up(e: Seq<EntryModel>) -> bool {
    forall|i: int|
        0 <= i < e.len() - 1 && is_numbered_item(#[trigger] e[i]) && is_numbered_item(e[i + 1])
            ==> entry_section(e[i + 1]) == entry_section(e[i]) && entry_item(e[i + 1])
            == entry_item(e[i]) + 1
}

/// The first line of a partial listing continues the numbering it was
/// started with: it either opens section `section + 1` or is the
/// `item + 1`-th item of section `section`.
pub open spec fn continues_numbering(e: Seq<EntryModel>, section: nat, item: nat) -> bool {
    e.len() > 0 ==> ((e[0] is SectionHeader && entry_section(e[0]) == section + 1) || (e[0] is Item
        && entry_section(e[0]) == section && entry_item(e[0]) == item + 1))
}

/// Law: down any partial listing, section numbers never decrease, a section
/// header opens its section with item 1, and adjacent numbered lines count
/// up by exactly 1 within their section.
pub proof fn lemma_assemble_numbering(
    bindings: Seq<BindingModel>,
    headers: Seq<HeaderModel>,
    section: nat,
    item: nat,
)
    ensures
        sections_at_least(assemble_from(bindings, headers, section, item), section),
        sections_monotone(assemble_from(bindings, headers, section, item)),
        headers_open_sections(assemble_from(bindings, headers, section, item)),
        items_count_up(assemble_from(bindings, headers, section, item)),
        continues_numbering(assemble_from(bindings, headers, section, item), section, item),
    decreases bindings.len(),
{
    let e = assemble_from(bindings, headers, section, item);
    if bindings.len() > 0 {
        let b = bindings[0];
        if headers.len() > 1 && headers[0].source_line < b.source_line {
            let e2 = assemble_from(bindings.drop_first(), headers.drop_first(), section + 1, 1);
            lemma_assemble_numbering(bindings.drop_first(), headers.drop_first(), section + 1, 1);
            assert(e.len() == 2 + e2.len());
            assert forall|i: int| 2 <= i < e.len() implies #[trigger] e[i] == e2[i - 2] by {}
            assert(sections_at_least(e, section));
            assert(sections_monotone(e));
            assert(headers_open_sections(e));
            assert(items_count_up(e));
        } else {
            let e2 = assemble_from(bindings.drop_first(), headers, section, item + 1);
            lemma_assemble_numbering(bindings.drop_first(), headers, section, item + 1);
            assert(e.len() == 1 + e2.len());
            assert forall|i: int| 1 <= i < e.len() implies #[trigger] e[i] == e2[i - 1] by {}
            assert(sections_at_least(e, section));
            assert(sections_monotone(e));
            assert(headers_open_sections(e));
            assert(items_count_up(e));
        }
    }
}

/// Law: over the whole listing of any bindings and headers, the synthetic
/// title comes first, the two built-in entries open section 0 with items 1
/// and 2, section numbers never decrease in render order, each section
/// header opens its section with item 1, and adjacent numbered lines count
/// up by exactly 1.
pub proof fn lemma_entries_numbering(bindings: Seq<BindingModel>, headers: Seq<HeaderModel>)
    ensures
        spec_entries(bindings, headers).len() >= 3,
        spec_entries(bindings, headers)[0] is Title,
        spec_entries(bindings, headers)[1] is Synthetic,
        spec_entries(bindings, headers)[2] is Synthetic,
        entry_item(spec_entries(bindings, headers)[1]) == 1,
        entry_item(spec_entries(bindings, headers)[2]) == 2,
        sections_monotone(spec_entries(bindings, headers)),
        headers_open_sections(spec_entries(bindings, headers)),
        items_count_up(spec_entries(bindings, headers)),
{
    let e = spec_entries(bindings, headers);
    let e2 = assemble_from(bindings, headers, 0, 2);
    lemma_assemble_numbering(bindings, headers, 0, 2);
    assert(e.len() == 3 + e2.len());
    assert forall|i: int| 3 <= i < e.len() implies #[trigger] e[i] == e2[i - 3] by {}
    assert(sections_monotone(e));
    assert(headers_open_sections(e));
    assert(items_count_up(e));
}

/// Builds the full listing for the given bindings and headers.
pub fn assemble_entries(bindings: &Vec<Binding>, headers: &Vec<Header>) -> (r: Vec<Entry>)
    requires
        bindings@.len() + 2 <= usize::MAX,
    ensures
        entry_views(r@) == spec_entries(binding_views(bindings@), header_views(headers@)),
{
    let ghost bv = binding_views(bindings@);
    let ghost hv = header_views(headers@);
    let mut out: Vec<Entry> = Vec::new();
    out.push(Entry::Title);
    out.push(
        Entry::Synthetic {
            item: 1,
            text: String::from_str("bspwmrc"),
            command: String::from_str("alacritty -e nvim /home/pablo/.config/bspwm/bspwmrc"),
        },
    );
    out.push(
        Entry::Synthetic {
            item: 2,
            text: String::from_str("sxhkdrc"),
            command: String::from_str("alacritty -e nvim /home/pablo/.config/sxhkd/sxhkdrc"),
        },
    );
    let mut section: usize = 0;
    let mut item: usize = 2;
    let mut h: usize = 0;
    let mut i: usize = 0;
    proof {
        assert(bv.skip(0) =~= bv);
        assert(hv.skip(0) =~= hv);
        assert(entry_views(out@) + assemble_from(bv, hv, 0, 2) =~= spec_entries(bv, hv));
    }
    while i < bindings.len()
        invariant
            bindings@.len() + 2 <= usize::MAX,
            i <= bindings@.len(),
            h <= headers@.len(),
            section <= h,
            1 <= item <= 2 + i,
            bv == binding_views(bindings@),
            hv == header_views(headers@),
            spec_entries(bv, hv) == entry_views(out@) + assemble_from(
                bv.skip(i as int),
                hv.skip(h as int),
                section as nat,
                item as nat,
            ),
        decreases bindings@.len() - i,
    {
        let ghost out0 = out@;
        let ghost rest = assemble_from(
            bv.skip(i as int),
            hv.skip(h as int),
            section as nat,
            item as nat,
        );
        proof {
            assert(bv.skip(i as int)[0] == bv[i as int]);
            assert(bv[i as int] == bindings@[i as int]@);
            assert(bv.skip(i as int).drop_first() =~= bv.skip(i as int + 1));
            if h < headers@.len() {
                assert(hv.skip(h as int)[0] == hv[h as int]);
                assert(hv[h as int] == headers@[h as int]@);
                assert(hv.skip(h as int).drop_first() =~= hv.skip(h as int + 1));
            }
            assert(hv.skip(h as int).len() == hv.len() - h);
        }
        if h < headers.len() && headers.len() - h > 1 && headers[h].source_line
            < bindings[i].source_line {
            section += 1;
            item = 1;
            out.push(
                Entry::SectionHeader { number: section, title: headers[h].title_text.clone() },
            );
            out.push(
                Entry::Item {
                    section,
                    item,
                    binding: bindings[i].binding_text.clone(),
                    description: bindings[i].description_text.clone(),
                    command: bindings[i].command_text.clone(),
                },
            );
            h += 1;
            proof {
                assert(entry_views(out@) =~= entry_views(out0) + seq![out@[out@.len() - 2]@, out@[
                    out@.len() - 1]@]);
                assert(entry_views(out0) + rest =~= entry_views(out@) + assemble_from(
                    bv.skip(i as int + 1),
                    hv.skip(h as int),
                    section as nat,
                    item as nat,
                ));
            }
        } else {
            item += 1;
            out.push(
                Entry::Item {
                    section,
                    item,
                    binding: bindings[i].binding_text.clone(),
                    description: bindings[i].description_text.clone(),
                    command: bindings[i].command_text.clone(),
                },
            );
            proof {
                assert(entry_views(out@) =~= entry_views(out0) + seq![out@[out@.len() - 1]@]);
                assert(entry_views(out0) + rest =~= entry_views(out@) + assemble_from(
                    bv.skip(i as int + 1),
                    hv.skip(h as int),
                    section as nat,
                    item as nat,
                ));
            }
        }
        i += 1;
    }
    proof {
        assert(bv.skip(i as int) =~= Seq::<BindingModel>::empty());
        assert(entry_views(out@) + Seq::<EntryModel>::empty() =~= entry_views(out@));
    }
    out
}

} // verus!
