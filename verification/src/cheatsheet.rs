//! The rendered cheatsheet: one display line and one command per listing
//! entry, index-aligned by construction, plus selection lookup and the
//! one-call formatter over a whole document.

use vstd::prelude::*;
use vstd::string::*;
use crate::assemble::{
    assemble_entries, entry_views, spec_entries, Entry, EntryModel,
};
use crate::parse::{
    binding_views, extract_bindings, extract_headers, has_malformed,
    lemma_bindings_count, line_views, malformed_at, normalized_bindings, normalized_headers,
    spec_bindings, spec_headers, spec_normalized_bindings, spec_normalized_headers,
    MalformedInputError,
};
use crate::text::{decimal, decimal_string, str_eq};

verus! {

/// One rendered unit: the text the chooser shows and the command a
/// selection of that text runs.  A header's command is empty: choosing a
/// header runs nothing.
pub struct CheatsheetLine {
    pub display_text: String,
    pub command_text: String,
}

/// The mathematical value of a [`CheatsheetLine`].
pub struct LineModel {
    pub display_text: Seq<char>,
    pub command_text: Seq<char>,
}

impl View for CheatsheetLine {
    type V = LineModel;

    open spec fn view(&self) -> LineModel {
        LineModel { display_text: self.display_text@, command_text: self.command_text@ }
    }
}

/// The display text of one listing entry: `0. EDIT CONFIG FILES` for the
/// title, `{section}. {TITLE}` for a section header, `0.{item} {name}` for a
/// built-in entry, and `{section}.{item} {binding} \u{25B6} {description}`
/// for a keybinding.
pub open spec fn rendered_display(e: EntryModel) -> Seq<char> {
    match e {
        EntryModel::Title => "0. EDIT CONFIG FILES"@,
        EntryModel::SectionHeader { number, title } => decimal(number) + ". "@ + title,
        EntryModel::Synthetic { item, text, .. } => "0."@ + decimal(item) + " "@ + text,
        EntryModel::Item { section, item, binding, description, .. } => decimal(section) + "."@
            + decimal(item) + " "@ + binding + " \u{25B6} "@ + description,
    }
}

/// The command paired with one listing entry; title and section headers
/// carry the empty command.
pub open spec fn rendered_command(e: EntryModel) -> Seq<char> {
    match e {
        EntryModel::Title => Seq::empty(),
        EntryModel::SectionHeader { .. } => Seq::empty(),
        EntryModel::Synthetic { command, .. } => command,
        EntryModel::Item { command, .. } => command,
    }
}

/// The rendered pair for one listing entry.
pub open spec fn rendered_line(e: EntryModel) -> LineModel {
    LineModel { display_text: rendered_display(e), command_text: rendered_command(e) }
}

/// The rendered pairs of a whole listing, in order.
pub open spec fn rendered_lines(es: Seq<EntryModel>) -> Seq<LineModel> {
    es.map_values(|e: EntryModel| rendered_line(e))
}

/// Renders one listing entry into its display line and command.
pub fn render_entry(e: &Entry) -> (r: CheatsheetLine)
    ensures
        r@ == rendered_line(e@),
{
    match e {
        Entry::Title => CheatsheetLine {
            display_text: String::from_str("0. EDIT CONFIG FILES"),
            command_text: String::new(),
        },
        Entry::SectionHeader { number, title } => {
            let mut d = decimal_string(*number);
            d.append(". ");
            d.append(title.as_str());
            CheatsheetLine { display_text: d, command_text: String::new() }
        },
        Entry::Synthetic { item, text, command } => {
            let mut d = String::from_str("0.");
            d.append(decimal_string(*item).as_str());
            d.append(" ");
            d.append(text.as_str());
            CheatsheetLine { display_text: d, command_text: command.clone() }
        },
        Entry::Item { section, item, binding, description, command } => {
            let mut d = decimal_string(*section);
            d.append(".");
            d.append(decimal_string(*item).as_str());
            d.append(" ");
            d.append(binding.as_str());
            d.append(" \u{25B6} ");
            d.append(description.as_str());
            CheatsheetLine { display_text: d, command_text: command.clone() }
        },
    }
}

/// The full cheatsheet: the ordered rendered pairs.  Display lines and
/// commands are one list of pairs, so the two projections are always
/// index-aligned and of equal length.
pub struct Cheatsheet {
    pub lines: Vec<CheatsheetLine>,
}

impl View for Cheatsheet {
    type V = Seq<LineModel>;

    open spec fn view(&self) -> Seq<LineModel> {
        self.lines@.map_values(|l: CheatsheetLine| l@)
    }
}

/// The display texts of the cheatsheet, in order.
pub open spec fn spec_display_texts(ls: Seq<LineModel>) -> Seq<Seq<char>> {
    ls.map_values(|l: LineModel| l.display_text)
}

/// The command texts of the cheatsheet, in order.
pub open spec fn spec_command_texts(ls: Seq<LineModel>) -> Seq<Seq<char>> {
    ls.map_values(|l: LineModel| l.command_text)
}

/// Law: the display lines and the commands of a cheatsheet are parallel
/// lists of one length, index-aligned pair by pair.
pub proof fn lemma_display_commands_aligned(ls: Seq<LineModel>)
    ensures
        spec_display_texts(ls).len() == ls.len(),
        spec_command_texts(ls).len() == ls.len(),
        forall|i: int| 0 <= i < ls.len() ==> spec_display_texts(ls)[i] == (#[trigger] ls[i]).display_text
            && spec_command_texts(ls)[i] == ls[i].command_text,
{
}

/// The display lines joined for the chooser, each followed by a newline.
pub open spec fn spec_joined(ls: Seq<LineModel>) -> Seq<char>
    decreases ls.len(),
{
    if ls.len() == 0 {
        Seq::empty()
    } else {
        ls[0].display_text + "\n"@ + spec_joined(ls.drop_first())
    }
}

/// The command of the first display line equal to the selection, or nothing
/// when no line matches.  When several lines match, the earliest in render
/// order wins: a deliberate, deterministic tie-break.
pub open spec fn spec_selected(ls: Seq<LineModel>, selection: Seq<char>) -> Option<Seq<char>>
    decreases ls.len(),
{
    if ls.len() == 0 {
        Option::None
    } else if ls[0].display_text == selection {
        Option::Some(ls[0].command_text)
    } else {
        spec_selected(ls.drop_first(), selection)
    }
}

/// Law: selection lookup returns nothing exactly when no display line
/// matches, and otherwise the command of the first matching line.
pub proof fn lemma_selected_first_match(ls: Seq<LineModel>, selection: Seq<char>)
    ensures
        spec_selected(ls, selection) is None <==> (forall|i: int|
            0 <= i < ls.len() ==> (#[trigger] ls[i]).display_text != selection),
        forall|i: int|
            (0 <= i < ls.len() && (#[trigger] ls[i]).display_text == selection && (forall|j: int|
                0 <= j < i ==> (#[trigger] ls[j]).display_text != selection)) ==> spec_selected(
                ls,
                selection,
            ) == Option::Some(ls[i].command_text),
    decreases ls.len(),
{
    if ls.len() > 0 {
        lemma_selected_first_match(ls.drop_first(), selection);
        if ls[0].display_text == selection {
            assert(!(forall|i: int|
                0 <= i < ls.len() ==> (#[trigger] ls[i]).display_text != selection)) by {
                assert(0 <= 0 < ls.len() && !((ls[0]).display_text != selection));
            }
        } else {
            if forall|i: int| 0 <= i < ls.len() ==> (#[trigger] ls[i]).display_text != selection {
                assert forall|j: int|
                    0 <= j < ls.drop_first().len() implies (#[trigger] ls.drop_first()[
                    j]).display_text != selection by {
                    assert(ls.drop_first()[j] == ls[j + 1]);
                }
                assert(spec_selected(ls.drop_first(), selection) is None);
            }
            if spec_selected(ls, selection) is None {
                assert forall|i: int|
                    0 <= i < ls.len() implies (#[trigger] ls[i]).display_text != selection by {
                    if i > 0 {
                        assert(ls[i] == ls.drop_first()[i - 1]);
                    }
                }
            }
            assert forall|i: int|
                (0 <= i < ls.len() && (#[trigger] ls[i]).display_text == selection && (forall|
                    j: int,
                | 0 <= j < i ==> (#[trigger] ls[j]).display_text != selection)) implies spec_selected(
                ls,
                selection,
            ) == Option::Some(ls[i].command_text) by {
                assert(ls[i] == ls.drop_first()[i - 1]);
                assert forall|j: int|
                    0 <= j < i - 1 implies (#[trigger] ls.drop_first()[j]).display_text
                    != selection by {
                    assert(ls.drop_first()[j] == ls[j + 1]);
                }
            }
        }
    }
}

impl Cheatsheet {
    /// How many lines the cheatsheet has.
    pub fn len(&self) -> (n: usize)
        ensures
            n == self@.len(),
    {
        self.lines.len()
    }

    /// The display lines alone, in order.
    pub fn display_lines(&self) -> (r: Vec<String>)
        ensures
            r@.len() == self@.len(),
            forall|i: int| 0 <= i < self@.len() ==> (#[trigger] r@[i])@ == self@[i].display_text,
    {
        let mut out: Vec<String> = Vec::new();
        let mut i: usize = 0;
        while i < self.lines.len()
            invariant
                i <= self.lines@.len(),
                out@.len() == i,
                forall|j: int| 0 <= j < i ==> (#[trigger] out@[j])@ == self@[j].display_text,
            decreases self.lines@.len() - i,
        {
            out.push(self.lines[i].display_text.clone());
            i += 1;
        }
        out
    }

    /// The commands alone, in order, index-aligned with the display lines.
    pub fn commands(&self) -> (r: Vec<String>)
        ensures
            r@.len() == self@.len(),
            forall|i: int| 0 <= i < self@.len() ==> (#[trigger] r@[i])@ == self@[i].command_text,
    {
        let mut out: Vec<String> = Vec::new();
        let mut i: usize = 0;
        while i < self.lines.len()
            invariant
                i <= self.lines@.len(),
                out@.len() == i,
                forall|j: int| 0 <= j < i ==> (#[trigger] out@[j])@ == self@[j].command_text,
            decreases self.lines@.len() - i,
        {
            out.push(self.lines[i].command_text.clone());
            i += 1;
        }
        out
    }

    /// The block of display lines handed to the chooser: every line
    /// followed by a newline.
    pub fn rendered(&self) -> (r: String)
        ensures
            r@ == spec_joined(self@),
    {
        let mut r = String::new();
        let mut i: usize = 0;
        proof {
            assert(self@.skip(0) =~= self@);
        }
        while i < self.lines.len()
            invariant
                i <= self.lines@.len(),
                spec_joined(self@) == r@ + spec_joined(self@.skip(i as int)),
            decreases self.lines@.len() - i,
        {
            let ghost r0 = r@;
            proof {
                assert(self@.skip(i as int)[0] == self@[i as int]);
                assert(self@.skip(i as int).drop_first() =~= self@.skip(i as int + 1));
            }
            r.append(self.lines[i].display_text.as_str());
            r.append("\n");
            proof {
                assert(r@ + spec_joined(self@.skip(i as int + 1)) =~= r0 + (self@[i as int].display_text
                    + "\n"@ + spec_joined(self@.skip(i as int + 1))));
            }
            i += 1;
        }
        proof {
            assert(spec_joined(self@.skip(i as int)) =~= Seq::<char>::empty());
            assert(r@ + Seq::<char>::empty() =~= r@);
        }
        r
    }

    /// Maps the chooser's output back to a command: the command of the
    /// first display line equal to the selection, or nothing when no line
    /// matches (the chooser was cancelled or returned something foreign).
    /// Choosing a header yields its empty command: a selection that runs
    /// nothing.
    pub fn select_command(&self, selection: &str) -> (r: Option<String>)
        ensures
            r matches Some(c) ==> spec_selected(self@, selection@) == Option::Some(c@),
            r is None ==> spec_selected(self@, selection@) is None,
    {
        let mut i: usize = 0;
        proof {
            assert(self@.skip(0) =~= self@);
        }
        while i < self.lines.len()
            invariant
                i <= self.lines@.len(),
                spec_selected(self@, selection@) == spec_selected(
                    self@.skip(i as int),
                    selection@,
                ),
            decreases self.lines@.len() - i,
        {
            proof {
                assert(self@.skip(i as int)[0] == self@[i as int]);
                assert(self@.skip(i as int).drop_first() =~= self@.skip(i as int + 1));
            }
            if str_eq(self.lines[i].display_text.as_str(), selection) {
                return Some(self.lines[i].command_text.clone());
            }
            i += 1;
        }
        None
    }
}

/// Renders every assembled entry, in order.
pub fn render_entries(entries: &Vec<Entry>) -> (r: Cheatsheet)
    ensures
        r@ == rendered_lines(entry_views(entries@)),
{
    let mut out: Vec<CheatsheetLine> = Vec::new();
    let mut i: usize = 0;
    while i < entries.len()
        invariant
            i <= entries@.len(),
            out@.len() == i,
            forall|j: int| 0 <= j < i ==> (#[trigger] out@[j])@ == rendered_line(entries@[j]@),
        decreases entries@.len() - i,
    {
        let line = render_entry(&entries[i]);
        out.push(line);
        i += 1;
    }
    let r = Cheatsheet { lines: out };
    proof {
        assert(r@ =~= rendered_lines(entry_views(entries@)));
    }
    r
}

/// The whole formatter as one mathematical function: extract bindings and
/// headers, normalize descriptions and titles, assemble, render.
pub open spec fn spec_cheatsheet(lines: Seq<Seq<char>>) -> Seq<LineModel> {
    rendered_lines(
        spec_entries(
            spec_normalized_bindings(spec_bindings(lines)),
            spec_normalized_headers(spec_headers(lines)),
        ),
    )
}

/// Law: formatting is a function of the document alone; running the
/// formatter again over unchanged lines yields the identical listing.
pub proof fn lemma_format_deterministic(
    lines: Seq<Seq<char>>,
    first: Seq<LineModel>,
    second: Seq<LineModel>,
)
    requires
        first == spec_cheatsheet(lines),
        second == spec_cheatsheet(lines),
    ensures
        first == second,
{
}

/// Formats a whole document.  Succeeds exactly when no binding line stands
/// at the first or last line of the document; the result is then fully
/// determined by the document's lines - formatting the same lines again
/// yields the identical cheatsheet.  On failure the error names the first
/// offending line.
pub fn format_cheatsheet(lines: &Vec<String>) -> (r: Result<Cheatsheet, MalformedInputError>)
    ensures
        r is Ok <==> !has_malformed(line_views(lines@)),
        r matches Ok(c) ==> c@ == spec_cheatsheet(line_views(lines@)),
        r matches Err(e) ==> malformed_at(line_views(lines@), e.source_line as int) && (forall|
            j: int,
        | 0 <= j < e.source_line ==> !malformed_at(line_views(lines@), j)),
{
    let bs = match extract_bindings(lines) {
        Ok(bs) => bs,
        Err(e) => { return Err(e) },
    };
    let hs = extract_headers(lines);
    let nbs = normalized_bindings(&bs);
    let nhs = normalized_headers(&hs);
    let total: usize = lines.len();
    proof {
        lemma_bindings_count(line_views(lines@));
        assert(line_views(lines@).len() == lines@.len());
        assert(binding_views(nbs@).len() == nbs@.len());
        assert(binding_views(bs@).len() == bs@.len());
        assert(nbs@.len() == spec_bindings(line_views(lines@)).len());
        assert(nbs@.len() + 2 <= total + 2 || nbs@.len() == 0);
    }
    let entries = assemble_entries(&nbs, &nhs);
    Ok(render_entries(&entries))
}

} // verus!
