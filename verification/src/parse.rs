//! Positional-heuristic parsing of the raw document: a binding line is a
//! line that starts with a modifier name; its command is the following line
//! and its description the preceding line.  A header is the middle line of
//! three consecutive comment lines.

use vstd::prelude::*;
use crate::text::{
    check_binding_line, check_comment_line, is_binding_line, is_comment_line, normalize,
    normalized,
};

verus! {

/// One extracted keybinding: the matched line, the line after it, the line
/// before it, and where the match stood in the document.
pub struct Binding {
    pub binding_text: String,
    pub command_text: String,
    pub description_text: String,
    pub source_line: usize,
}

/// The mathematical value of a [`Binding`].
pub struct BindingModel {
    pub binding_text: Seq<char>,
    pub command_text: Seq<char>,
    pub description_text: Seq<char>,
    pub source_line: nat,
}

impl View for Binding {
    type V = BindingModel;

    open spec fn view(&self) -> BindingModel {
        BindingModel {
            binding_text: self.binding_text@,
            command_text: self.command_text@,
            description_text: self.description_text@,
            source_line: self.source_line as nat,
        }
    }
}

/// One extracted section header: the middle line of a three-comment-line
/// run, and where that middle line stood in the document.
pub struct Header {
    pub title_text: String,
    pub source_line: usize,
}

/// The mathematical value of a [`Header`].
pub struct HeaderModel {
    pub title_text: Seq<char>,
    pub source_line: nat,
}

impl View for Header {
    type V = HeaderModel;

    open spec fn view(&self) -> HeaderModel {
        HeaderModel { title_text: self.title_text@, source_line: self.source_line as nat }
    }
}

/// A binding line stood at the very first or very last line of the document,
/// so the preceding description line or the following command line does not
/// exist.  Extraction fails fast rather than read out of bounds.
pub struct MalformedInputError {
    pub source_line: usize,
}

/// The documents' lines as character sequences.
pub open spec fn line_views(lines: Seq<String>) -> Seq<Seq<char>> {
    lines.map_values(|l: String| l@)
}

/// The models of a list of bindings.
pub open spec fn binding_views(bs: Seq<Binding>) -> Seq<BindingModel> {
    bs.map_values(|b: Binding| b@)
}

/// The models of a list of headers.
pub open spec fn header_views(hs: Seq<Header>) -> Seq<HeaderModel> {
    hs.map_values(|h: Header| h@)
}

/// A binding line at `i` is malformed when it has no preceding or no
/// following line.
pub open spec fn malformed_at(lines: Seq<Seq<char>>, i: int) -> bool {
    &&& 0 <= i < lines.len()
    &&& is_binding_line(lines[i])
    &&& (i == 0 || i == lines.len() - 1)
}

/// The document holds a binding line with no room for its description or
/// command line.
pub open spec fn has_malformed(lines: Seq<Seq<char>>) -> bool {
    exists|i: int| malformed_at(lines, i)
}

/// The bindings found at indices `i` and beyond, in file order, with their
/// raw (not yet normalized) description lines.
pub open spec fn bindings_from(lines: Seq<Seq<char>>, i: int) -> Seq<BindingModel>
    decreases lines.len() - i,
    when 0 <= i
{
    if i >= lines.len() {
        Seq::empty()
    } else if is_binding_line(lines[i]) && 0 < i < lines.len() - 1 {
        seq![
            BindingModel {
                binding_text: lines[i],
                command_text: lines[i + 1],
                description_text: lines[i - 1],
                source_line: i as nat,
            },
        ] + bindings_from(lines, i + 1)
    } else {
        bindings_from(lines, i + 1)
    }
}

/// All bindings of the document, in file order, raw descriptions.
pub open spec fn spec_bindings(lines: Seq<Seq<char>>) -> Seq<BindingModel> {
    bindings_from(lines, 0)
}

/// The headers found at run starts `i` and beyond: whenever the lines at
/// `i`, `i + 1` and `i + 2` are all comment lines, the middle one is a
/// header.  Overlapping runs each yield a header; duplicates are kept.
pub open spec fn headers_from(lines: Seq<Seq<char>>, i: int) -> Seq<HeaderModel>
    decreases lines.len() - i,
    when 0 <= i
{
    if i + 2 >= lines.len() {
        Seq::empty()
    } else if is_comment_line(lines[i]) && is_comment_line(lines[i + 1]) && is_comment_line(
        lines[i + 2],
    ) {
        seq![HeaderModel { title_text: lines[i + 1], source_line: (i + 1) as nat }]
            + headers_from(lines, i + 1)
    } else {
        headers_from(lines, i + 1)
    }
}

/// All headers of the document, in file order, raw titles.
pub open spec fn spec_headers(lines: Seq<Seq<char>>) -> Seq<HeaderModel> {
    headers_from(lines, 0)
}

/// Scans the document for binding lines and records, for each, the matched
/// line, the following command line and the preceding description line.
/// Fails with [`MalformedInputError`] naming the first offending line when a
/// binding line stands at the first or the last index, where an adjacent
/// line is missing.
pub fn extract_bindings(lines: &Vec<String>) -> (r: Result<Vec<Binding>, MalformedInputError>)
    ensures
        r is Ok <==> !has_malformed(line_views(lines@)),
        r matches Ok(bs) ==> binding_views(bs@) == spec_bindings(line_views(lines@)),
        r matches Err(e) ==> malformed_at(line_views(lines@), e.source_line as int) && (forall|
            j: int,
        | 0 <= j < e.source_line ==> !malformed_at(line_views(lines@), j)),
{
    let ghost lv = line_views(lines@);
    let n: usize = lines.len();
    let mut out: Vec<Binding> = Vec::new();
    let mut i: usize = 0;
    proof {
        assert(binding_views(out@) + bindings_from(lv, 0) =~= bindings_from(lv, 0));
    }
    while i < n
        invariant
            i <= n,
            n == lines@.len(),
            lv == line_views(lines@),
            forall|j: int| 0 <= j < i ==> !malformed_at(lv, j),
            spec_bindings(lv) == binding_views(out@) + bindings_from(lv, i as int),
        decreases n - i,
    {
        proof {
            assert(lv[i as int] == lines@[i as int]@);
        }
        if check_binding_line(lines[i].as_str()) {
            if i == 0 || i + 1 == n {
                proof {
                    assert(malformed_at(lv, i as int));
                }
                return Err(MalformedInputError { source_line: i });
            }
            let ghost out0 = out@;
            proof {
                assert(lv[i as int + 1] == lines@[i as int + 1]@);
                assert(lv[i as int - 1] == lines@[i as int - 1]@);
            }
            let b = Binding {
                binding_text: lines[i].clone(),
                command_text: lines[i + 1].clone(),
                description_text: lines[i - 1].clone(),
                source_line: i,
            };
            out.push(b);
            proof {
                assert(binding_views(out@) =~= binding_views(out0) + seq![b@]);
                assert(bindings_from(lv, i as int) == seq![b@] + bindings_from(lv, i as int + 1));
                assert(binding_views(out0) + bindings_from(lv, i as int) =~= binding_views(out@)
                    + bindings_from(lv, i as int + 1));
            }
        }
        i += 1;
    }
    proof {
        assert(bindings_from(lv, n as int) =~= Seq::<BindingModel>::empty());
        assert(binding_views(out@) + Seq::<BindingModel>::empty() =~= binding_views(out@));
        if has_malformed(lv) {
            let j = choose|j: int| malformed_at(lv, j);
            assert(!malformed_at(lv, j));
        }
    }
    Ok(out)
}

/// Scans the document for runs of three consecutive comment lines and
/// records the middle line of each run as a header, raw title.  Overlapping
/// runs each yield their own header; no de-duplication is performed.
pub fn extract_headers(lines: &Vec<String>) -> (r: Vec<Header>)
    ensures
        header_views(r@) == spec_headers(line_views(lines@)),
{
    let ghost lv = line_views(lines@);
    let n: usize = lines.len();
    let mut out: Vec<Header> = Vec::new();
    let mut i: usize = 0;
    proof {
        assert(header_views(out@) + headers_from(lv, 0) =~= headers_from(lv, 0));
    }
    while n >= 3 && i < n - 2
        invariant
            i <= n,
            n == lines@.len(),
            lv == line_views(lines@),
            spec_headers(lv) == header_views(out@) + headers_from(lv, i as int),
        decreases n - i,
    {
        proof {
            assert(lv[i as int] == lines@[i as int]@);
            assert(lv[i as int + 1] == lines@[i as int + 1]@);
            assert(lv[i as int + 2] == lines@[i as int + 2]@);
        }
        if check_comment_line(lines[i].as_str()) && check_comment_line(lines[i + 1].as_str())
            && check_comment_line(lines[i + 2].as_str()) {
            let ghost out0 = out@;
            let h = Header { title_text: lines[i + 1].clone(), source_line: i + 1 };
            out.push(h);
            proof {
                assert(header_views(out@) =~= header_views(out0) + seq![h@]);
                assert(header_views(out0) + headers_from(lv, i as int) =~= header_views(out@)
                    + headers_from(lv, i as int + 1));
            }
        }
        i += 1;
    }
    proof {
        assert(headers_from(lv, i as int) =~= Seq::<HeaderModel>::empty());
        assert(header_views(out@) + Seq::<HeaderModel>::empty() =~= header_views(out@));
    }
    out
}

/// A binding with its description passed through the normalizer; the other
/// fields are untouched.
pub open spec fn normalized_binding(b: BindingModel) -> BindingModel {
    BindingModel {
        binding_text: b.binding_text,
        command_text: b.command_text,
        description_text: normalized(b.description_text),
        source_line: b.source_line,
    }
}

/// Every binding with its description normalized.
pub open spec fn spec_normalized_bindings(bs: Seq<BindingModel>) -> Seq<BindingModel> {
    bs.map_values(|b: BindingModel| normalized_binding(b))
}

/// A header with its title passed through the normalizer.
pub open spec fn normalized_header(h: HeaderModel) -> HeaderModel {
    HeaderModel { title_text: normalized(h.title_text), source_line: h.source_line }
}

/// Every header with its title normalized.
pub open spec fn spec_normalized_headers(hs: Seq<HeaderModel>) -> Seq<HeaderModel> {
    hs.map_values(|h: HeaderModel| normalized_header(h))
}

/// Applies the normalizer to every extracted description.
pub fn normalized_bindings(bs: &Vec<Binding>) -> (r: Vec<Binding>)
    ensures
        binding_views(r@) == spec_normalized_bindings(binding_views(bs@)),
{
    let mut out: Vec<Binding> = Vec::new();
    let mut i: usize = 0;
    while i < bs.len()
        invariant
            i <= bs@.len(),
            out@.len() == i,
            forall|j: int| 0 <= j < i ==> out@[j]@ == normalized_binding(bs@[j]@),
        decreases bs@.len() - i,
    {
        let b = Binding {
            binding_text: bs[i].binding_text.clone(),
            command_text: bs[i].command_text.clone(),
            description_text: normalize(bs[i].description_text.as_str()),
            source_line: bs[i].source_line,
        };
        out.push(b);
        i += 1;
    }
    proof {
        assert(binding_views(out@) =~= spec_normalized_bindings(binding_views(bs@)));
    }
    out
}

/// Applies the normalizer to every extracted header title.
pub fn normalized_headers(hs: &Vec<Header>) -> (r: Vec<Header>)
    ensures
        header_views(r@) == spec_normalized_headers(header_views(hs@)),
{
    let mut out: Vec<Header> = Vec::new();
    let mut i: usize = 0;
    while i < hs.len()
        invariant
            i <= hs@.len(),
            out@.len() == i,
            forall|j: int| 0 <= j < i ==> out@[j]@ == normalized_header(hs@[j]@),
        decreases hs@.len() - i,
    {
        let h = Header {
            title_text: normalize(hs[i].title_text.as_str()),
            source_line: hs[i].source_line,
        };
        out.push(h);
        i += 1;
    }
    proof {
        assert(header_views(out@) =~= spec_normalized_headers(header_views(hs@)));
    }
    out
}

/// The extractor finds at most one binding per interior line: the count is
/// bounded by the document length less its two edge lines.
pub proof fn lemma_bindings_count(lines: Seq<Seq<char>>)
    ensures
        lines.len() >= 2 ==> spec_bindings(lines).len() <= lines.len() - 2,
        lines.len() < 2 ==> spec_bindings(lines).len() == 0,
{
    lemma_bindings_count_from(lines, 1);
    if lines.len() >= 1 {
        assert(bindings_from(lines, 0) == bindings_from(lines, 1));
    }
}

proof fn lemma_bindings_count_from(lines: Seq<Seq<char>>, i: int)
    requires
        1 <= i,
    ensures
        bindings_from(lines, i).len() <= if i <= lines.len() - 1 {
            lines.len() - 1 - i
        } else {
            0
        },
    decreases lines.len() - i,
{
    if i < lines.len() {
        lemma_bindings_count_from(lines, i + 1);
    }
}

} // verus!
