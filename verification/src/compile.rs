//! The compiler core: classifies the lines of an annotated source
//! file, groups maximal runs of same-tagged lines into sections,
//! normalizes and fences code sections, and serializes the resulting
//! document.

use vstd::prelude::*;

use crate::text::{
    is_blank_line, is_blank_spec, is_space, is_space_char, trim, trim_end_spec, trim_spec,
};

verus! {

broadcast use crate::text::lemma_lines_deep_view;

/// The classification of one input line.
#[derive(Clone, Copy, Debug, PartialEq, Eq, Structural)]
pub enum Tag {
    DocComment,
    Comment,
    Code,
}

/// A maximal run of same-tagged lines, with its per-variant stripping
/// already applied.
#[derive(Debug)]
pub enum Section {
    Comment { lines: Vec<String> },
    DocComment { lines: Vec<String> },
    Code { lines: Vec<String> },
}

/// The mathematical model of a [`Section`]: its tag and its lines as
/// sequences of characters.
pub struct SectionView {
    pub tag: Tag,
    pub lines: Seq<Seq<char>>,
}

impl View for Section {
    type V = SectionView;

    open spec fn view(&self) -> SectionView {
        match self {
            Section::Comment { lines } => SectionView { tag: Tag::Comment, lines: lines.deep_view() },
            Section::DocComment { lines } => SectionView {
                tag: Tag::DocComment,
                lines: lines.deep_view(),
            },
            Section::Code { lines } => SectionView { tag: Tag::Code, lines: lines.deep_view() },
        }
    }
}

impl Section {
    /// The stripped lines the section holds.
    pub fn lines(&self) -> (ls: &Vec<String>)
        ensures
            ls.deep_view() == self@.lines,
    {
        match self {
            Section::Comment { lines } => lines,
            Section::DocComment { lines } => lines,
            Section::Code { lines } => lines,
        }
    }
}

/// A classified run of lines came up empty.  The section builder
/// always consumes at least the line it peeked, so a compilation never
/// actually reports this.
#[derive(Clone, Copy, Debug, PartialEq, Eq, Structural)]
pub enum CompileError {
    MalformedInput,
}

/// Classification of a line, decided by its leading characters alone:
/// the doc-comment marker wins, then the tutorial-comment marker, and
/// everything else is code.
pub open spec fn classify_spec(l: Seq<char>) -> Tag {
    if l.len() >= 3 && l[0] == '/' && l[1] == '/' && l[2] == '/' {
        Tag::DocComment
    } else if l.len() >= 3 && l[0] == '/' && l[1] == '/' && l[2] == 't' {
        Tag::Comment
    } else {
        Tag::Code
    }
}

/// Classifies one line by its prefix, per [`classify_spec`].
pub fn classify(line: &str) -> (t: Tag)
    ensures
        t == classify_spec(line@),
{
    let n = line.unicode_len();
    if n >= 3 {
        let c0 = line.get_char(0);
        let c1 = line.get_char(1);
        let c2 = line.get_char(2);
        if c0 == '/' && c1 == '/' && c2 == '/' {
            Tag::DocComment
        } else if c0 == '/' && c1 == '/' && c2 == 't' {
            Tag::Comment
        } else {
            Tag::Code
        }
    } else {
        Tag::Code
    }
}

/// A comment line with the marker removed, plus one following space if
/// there is one.  Indentation beyond that single space is preserved.
pub open spec fn comment_marker_stripped(l: Seq<char>) -> Seq<char> {
    let m = if l.len() >= 3 && l[0] == '/' && l[1] == '/' && l[2] == 't' {
        l.skip(3)
    } else {
        l
    };
    if m.len() > 0 && m[0] == ' ' {
        m.drop_first()
    } else {
        m
    }
}

/// How a tutorial-comment line is stored: marker and one following
/// space removed, then right-trimmed.
pub open spec fn comment_line_spec(l: Seq<char>) -> Seq<char> {
    trim_end_spec(comment_marker_stripped(l))
}

/// Strips a tutorial-comment line, per [`comment_line_spec`].
pub fn strip_comment_line(line: &str) -> (r: String)
    ensures
        r@ == comment_line_spec(line@),
{
    let n = line.unicode_len();
    let has_marker = n >= 3 && line.get_char(0) == '/' && line.get_char(1) == '/' && line.get_char(
        2,
    ) == 't';
    let after_marker: usize = if has_marker {
        3
    } else {
        0
    };
    let start: usize = if after_marker < n && line.get_char(after_marker) == ' ' {
        after_marker + 1
    } else {
        after_marker
    };
    proof {
        if after_marker < n && line@[after_marker as int] == ' ' {
            assert(line@.skip(after_marker as int).drop_first() =~= line@.skip(
                after_marker as int + 1,
            ));
        }
        assert(comment_marker_stripped(line@) =~= line@.skip(start as int));
    }
    let mut b: usize = n;
    while b > start && is_space(line.get_char(b - 1))
        invariant
            start <= b <= n,
            n == line@.len(),
            forall|k: int| b <= k < n ==> is_space_char(line@[k]),
        decreases b,
    {
        b -= 1;
    }
    proof {
        crate::text::lemma_trim_end_take(line@.skip(start as int), b - start);
        assert(line@.skip(start as int).take(b - start) =~= line@.subrange(
            start as int,
            b as int,
        ));
    }
    String::from_str(line.substring_char(start, b))
}

/// How one line is stored in a section of the given tag.
pub open spec fn strip_line_spec(t: Tag, l: Seq<char>) -> Seq<char> {
    match t {
        Tag::DocComment => trim_spec(l),
        Tag::Comment => comment_line_spec(l),
        Tag::Code => l,
    }
}

/// The end of the run of lines tagged `t` that begins at `i`: the
/// first index at or after `i` holding a line of another tag, or the
/// input's length.
pub open spec fn run_end(l: Seq<Seq<char>>, i: int, t: Tag) -> int
    decreases l.len() - i,
    when i <= l.len()
{
    if i < l.len() && classify_spec(l[i]) == t {
        run_end(l, i + 1, t)
    } else {
        i
    }
}

/// `run_end` stays within bounds, covers only lines of its tag, and
/// stops right before a line of another tag.
pub proof fn lemma_run_end_bounds(l: Seq<Seq<char>>, i: int, t: Tag)
    requires
        0 <= i <= l.len(),
    ensures
        i <= run_end(l, i, t) <= l.len(),
        forall|k: int| i <= k < run_end(l, i, t) ==> classify_spec(l[k]) == t,
        run_end(l, i, t) == l.len() || classify_spec(l[run_end(l, i, t)]) != t,
    decreases l.len() - i,
{
    if i < l.len() && classify_spec(l[i]) == t {
        lemma_run_end_bounds(l, i + 1, t);
    }
}

/// A run's end is determined by its properties: if every line from `i`
/// up to `j` has tag `t` and `j` is the input's end or another tag,
/// then the run ends at `j`.
pub proof fn lemma_run_end_determined(l: Seq<Seq<char>>, i: int, j: int, t: Tag)
    requires
        0 <= i <= j <= l.len(),
        forall|k: int| i <= k < j ==> classify_spec(l[k]) == t,
        j == l.len() || classify_spec(l[j]) != t,
    ensures
        run_end(l, i, t) == j,
    decreases j - i,
{
    if i < j {
        assert(classify_spec(l[i]) == t);
        lemma_run_end_determined(l, i + 1, j, t);
    }
}

/// The section built from the run that begins at `i`, before any code
/// formatting: its tag is the classification of the run's first line,
/// and its lines are the run's lines with per-tag stripping applied.
pub open spec fn raw_section_view(l: Seq<Seq<char>>, i: int) -> SectionView {
    let t = classify_spec(l[i]);
    SectionView {
        tag: t,
        lines: l.subrange(i, run_end(l, i, t)).map_values(|x: Seq<char>| strip_line_spec(t, x)),
    }
}

/// The sections built from the lines at `i` onward, before any code
/// formatting: one section per maximal run of same-tagged lines.
pub open spec fn raw_doc_from(l: Seq<Seq<char>>, i: int) -> Seq<SectionView>
    decreases l.len() - i,
    when 0 <= i <= l.len()
    via raw_doc_from_decreases
{
    if i < l.len() {
        seq![raw_section_view(l, i)] + raw_doc_from(l, run_end(l, i, classify_spec(l[i])))
    } else {
        seq![]
    }
}

#[via_fn]
proof fn raw_doc_from_decreases(l: Seq<Seq<char>>, i: int) {
    if 0 <= i < l.len() {
        let t = classify_spec(l[i]);
        lemma_run_end_bounds(l, i + 1, t);
    }
}

/// Parses the run of doc-comment lines at the cursor into a section,
/// keeping each line as written up to outer-whitespace trimming (the
/// marker is not stripped).  Consumes exactly the maximal run; fails
/// only when the cursor does not sit on a doc-comment line.
pub fn parse_doc_comment(lines: &Vec<String>, i: &mut usize) -> (r: Result<
    Section,
    CompileError,
>)
    requires
        *old(i) <= lines@.len(),
    ensures
        ({
            let l = lines.deep_view();
            let i0 = *old(i) as int;
            if i0 < l.len() && classify_spec(l[i0]) == Tag::DocComment {
                &&& (r matches Ok(s) && s@ == raw_section_view(l, i0))
                &&& *final (i) == run_end(l, i0, Tag::DocComment)
                &&& i0 < *final (i) <= l.len()
            } else {
                &&& r matches Err(e) && e == CompileError::MalformedInput
                &&& *final (i) == i0
            }
        }),
{
    let ghost l = lines.deep_view();
    let ghost i0 = *i as int;
    let mut ls: Vec<String> = Vec::new();
    while *i < lines.len() && classify(lines[*i].as_str()) == Tag::DocComment
        invariant
            i0 == *old(i) as int,
            i0 <= *i as int <= l.len(),
            l == lines.deep_view(),
            forall|k: int| i0 <= k < *i as int ==> classify_spec(l[k]) == Tag::DocComment,
            ls@.len() == *i as int - i0,
            forall|k: int|
                0 <= k < ls@.len() ==> ls@[k]@ == strip_line_spec(Tag::DocComment, l[i0 + k]),
        decreases l.len() - *i as int,
    {
        ls.push(trim(lines[*i].as_str()));
        *i += 1;
    }
    proof {
        lemma_run_end_determined(l, i0, *i as int, Tag::DocComment);
    }
    if ls.len() == 0 {
        Err(CompileError::MalformedInput)
    } else {
        let s = Section::DocComment { lines: ls };
        proof {
            let target = l.subrange(i0, *i as int).map_values(
                |x: Seq<char>| strip_line_spec(Tag::DocComment, x),
            );
            assert forall|k: int| 0 <= k < s@.lines.len() implies s@.lines[k] == target[k] by {
                assert(l.subrange(i0, *i as int)[k] == l[i0 + k]);
            }
            assert(s@.lines =~= target);
        }
        Ok(s)
    }
}

/// Parses the run of tutorial-comment lines at the cursor into a
/// section, stripping each line's marker and one following space and
/// right-trimming it.  Consumes exactly the maximal run; fails only
/// when the cursor does not sit on a tutorial-comment line.
pub fn parse_comment(lines: &Vec<String>, i: &mut usize) -> (r: Result<Section, CompileError>)
    requires
        *old(i) <= lines@.len(),
    ensures
        ({
            let l = lines.deep_view();
            let i0 = *old(i) as int;
            if i0 < l.len() && classify_spec(l[i0]) == Tag::Comment {
                &&& (r matches Ok(s) && s@ == raw_section_view(l, i0))
                &&& *final (i) == run_end(l, i0, Tag::Comment)
                &&& i0 < *final (i) <= l.len()
            } else {
                &&& r matches Err(e) && e == CompileError::MalformedInput
                &&& *final (i) == i0
            }
        }),
{
    let ghost l = lines.deep_view();
    let ghost i0 = *i as int;
    let mut ls: Vec<String> = Vec::new();
    while *i < lines.len() && classify(lines[*i].as_str()) == Tag::Comment
        invariant
            i0 == *old(i) as int,
            i0 <= *i as int <= l.len(),
            l == lines.deep_view(),
            forall|k: int| i0 <= k < *i as int ==> classify_spec(l[k]) == Tag::Comment,
            ls@.len() == *i as int - i0,
            forall|k: int|
                0 <= k < ls@.len() ==> ls@[k]@ == strip_line_spec(Tag::Comment, l[i0 + k]),
        decreases l.len() - *i as int,
    {
        ls.push(strip_comment_line(lines[*i].as_str()));
        *i += 1;
    }
    proof {
        lemma_run_end_determined(l, i0, *i as int, Tag::Comment);
    }
    if ls.len() == 0 {
        Err(CompileError::MalformedInput)
    } else {
        let s = Section::Comment { lines: ls };
        proof {
            let target = l.subrange(i0, *i as int).map_values(
                |x: Seq<char>| strip_line_spec(Tag::Comment, x),
            );
            assert forall|k: int| 0 <= k < s@.lines.len() implies s@.lines[k] == target[k] by {
                assert(l.subrange(i0, *i as int)[k] == l[i0 + k]);
            }
            assert(s@.lines =~= target);
        }
        Ok(s)
    }
}

/// Parses the run of code lines at the cursor into a section, keeping
/// every line byte-exact.  Consumes exactly the maximal run; fails
/// only when the cursor does not sit on a code line.
pub fn parse_code(lines: &Vec<String>, i: &mut usize) -> (r: Result<Section, CompileError>)
    requires
        *old(i) <= lines@.len(),
    ensures
        ({
            let l = lines.deep_view();
            let i0 = *old(i) as int;
            if i0 < l.len() && classify_spec(l[i0]) == Tag::Code {
                &&& (r matches Ok(s) && s@ == raw_section_view(l, i0))
                &&& *final (i) == run_end(l, i0, Tag::Code)
                &&& i0 < *final (i) <= l.len()
            } else {
                &&& r matches Err(e) && e == CompileError::MalformedInput
                &&& *final (i) == i0
            }
        }),
{
    let ghost l = lines.deep_view();
    let ghost i0 = *i as int;
    let mut ls: Vec<String> = Vec::new();
    while *i < lines.len() && classify(lines[*i].as_str()) == Tag::Code
        invariant
            i0 == *old(i) as int,
            i0 <= *i as int <= l.len(),
            l == lines.deep_view(),
            forall|k: int| i0 <= k < *i as int ==> classify_spec(l[k]) == Tag::Code,
            ls@.len() == *i as int - i0,
            forall|k: int|
                0 <= k < ls@.len() ==> ls@[k]@ == strip_line_spec(Tag::Code, l[i0 + k]),
        decreases l.len() - *i as int,
    {
        ls.push(lines[*i].clone());
        *i += 1;
    }
    proof {
        lemma_run_end_determined(l, i0, *i as int, Tag::Code);
    }
    if ls.len() == 0 {
        Err(CompileError::MalformedInput)
    } else {
        let s = Section::Code { lines: ls };
        proof {
            let target = l.subrange(i0, *i as int).map_values(
                |x: Seq<char>| strip_line_spec(Tag::Code, x),
            );
            assert forall|k: int| 0 <= k < s@.lines.len() implies s@.lines[k] == target[k] by {
                assert(l.subrange(i0, *i as int)[k] == l[i0 + k]);
            }
            assert(s@.lines =~= target);
        }
        Ok(s)
    }
}

/// Drops the blank lines before the first non-blank line.
pub open spec fn drop_leading_blank(s: Seq<Seq<char>>) -> Seq<Seq<char>>
    decreases s.len(),
{
    if s.len() > 0 && is_blank_spec(s[0]) {
        drop_leading_blank(s.drop_first())
    } else {
        s
    }
}

/// Collapses every run of two or more consecutive blank lines into
/// its first line.  `prev_blank` says whether the line just before `s`
/// was blank and kept.
pub open spec fn collapse_blank(s: Seq<Seq<char>>, prev_blank: bool) -> Seq<Seq<char>>
    decreases s.len(),
{
    if s.len() == 0 {
        seq![]
    } else if is_blank_spec(s[0]) && prev_blank {
        collapse_blank(s.drop_first(), true)
    } else {
        seq![s[0]] + collapse_blank(s.drop_first(), is_blank_spec(s[0]))
    }
}

/// Drops the last line if it is blank.  After blank runs are
/// collapsed the line before it cannot be blank, so one drop is
/// enough.
pub open spec fn drop_last_blank(s: Seq<Seq<char>>) -> Seq<Seq<char>> {
    if s.len() > 0 && is_blank_spec(s.last()) {
        s.drop_last()
    } else {
        s
    }
}

/// The fence line that opens a formatted code section: the fence
/// marker with the language tag.
pub open spec fn fence_open_spec() -> Seq<char> {
    "```rust"@
}

/// The fence line that closes a formatted code section: the fence
/// marker alone.
pub open spec fn fence_close_spec() -> Seq<char> {
    "```"@
}

/// What formatting does to a code section's lines: leading blank
/// lines dropped, later blank runs collapsed to one line, a trailing
/// blank line dropped, and the remainder fenced; a section left empty
/// stays empty and unfenced.
pub open spec fn format_spec(s: Seq<Seq<char>>) -> Seq<Seq<char>> {
    let body = drop_last_blank(collapse_blank(drop_leading_blank(s), false));
    if body.len() == 0 {
        body
    } else {
        seq![fence_open_spec()] + body + seq![fence_close_spec()]
    }
}

/// Dropping leading blanks skips exactly the leading run of blank
/// lines.
proof fn lemma_drop_leading_blank_skip(s: Seq<Seq<char>>, a: int)
    requires
        0 <= a <= s.len(),
        forall|k: int| 0 <= k < a ==> is_blank_spec(s[k]),
        a == s.len() || !is_blank_spec(s[a]),
    ensures
        drop_leading_blank(s) =~= s.skip(a),
    decreases a,
{
    if a == 0 {
        if s.len() > 0 && is_blank_spec(s[0]) {
            assert(false);
        }
    } else {
        let tail = s.drop_first();
        assert(tail =~= s.skip(1));
        lemma_drop_leading_blank_skip(tail, a - 1);
        assert(tail.skip(a - 1) =~= s.skip(a));
    }
}

/// Reformats the lines of a code section in place, per
/// [`format_spec`].
pub fn format_code(lines: &mut Vec<String>)
    ensures
        final (lines).deep_view() == format_spec(old(lines).deep_view()),
{
    let ghost orig = lines.deep_view();
    let n = lines.len();
    let mut i: usize = 0;
    while i < n && is_blank_line(lines[i].as_str())
        invariant
            0 <= i <= n,
            n == lines@.len(),
            orig == lines.deep_view(),
            forall|k: int| 0 <= k < i ==> is_blank_spec(orig[k]),
        decreases n - i,
    {
        i += 1;
    }
    proof {
        lemma_drop_leading_blank_skip(orig, i as int);
    }
    let ghost a = i as int;
    let mut out: Vec<String> = Vec::new();
    let mut prev_blank = false;
    while i < n
        invariant
            a <= i as int <= n,
            n == lines@.len(),
            orig == lines.deep_view(),
            collapse_blank(orig.skip(a), false) =~= out.deep_view() + collapse_blank(
                orig.skip(i as int),
                prev_blank,
            ),
        decreases n - i,
    {
        let blank = is_blank_line(lines[i].as_str());
        proof {
            assert(orig.skip(i as int)[0] == orig[i as int]);
            assert(orig.skip(i as int).drop_first() =~= orig.skip(i as int + 1));
        }
        if !(blank && prev_blank) {
            let ghost out0 = out.deep_view();
            out.push(lines[i].clone());
            proof {
                assert(out.deep_view() =~= out0.push(orig[i as int]));
                assert(out0.push(orig[i as int]) + collapse_blank(
                    orig.skip(i as int + 1),
                    is_blank_spec(orig[i as int]),
                ) =~= out0 + (seq![orig[i as int]] + collapse_blank(
                    orig.skip(i as int + 1),
                    is_blank_spec(orig[i as int]),
                )));
            }
        }
        prev_blank = blank;
        i += 1;
    }
    proof {
        assert(orig.skip(n as int) =~= Seq::<Seq<char>>::empty());
        assert(out.deep_view() + collapse_blank(orig.skip(n as int), prev_blank) =~= out.deep_view());
        assert(out.deep_view() =~= collapse_blank(orig.skip(a), false));
    }
    let ghost collapsed = out.deep_view();
    if out.len() > 0 && is_blank_line(out[out.len() - 1].as_str()) {
        out.pop();
        proof {
            assert(out.deep_view() =~= collapsed.drop_last());
        }
    }
    proof {
        assert(out.deep_view() =~= drop_last_blank(collapsed));
    }
    let ghost body = out.deep_view();
    if out.len() > 0 {
        let ghost before = out.deep_view();
        out.insert(0, String::from_str("```rust"));
        out.push(String::from_str("```"));
        proof {
            assert(out.deep_view() =~= seq![fence_open_spec()] + before + seq![fence_close_spec()]);
        }
    }
    *lines = out;
    proof {
        assert(final (lines).deep_view() == out.deep_view());
        assert(format_spec(orig) =~= out.deep_view());
    }
}

/// What the formatting pass does to one section: a code section's
/// lines are formatted, other sections are untouched.
pub open spec fn format_section_view(sv: SectionView) -> SectionView {
    match sv.tag {
        Tag::Code => SectionView { tag: Tag::Code, lines: format_spec(sv.lines) },
        _ => sv,
    }
}

/// The document compiled from the given lines: one section per
/// maximal run of same-tagged lines, with code sections formatted.
pub open spec fn doc_spec(l: Seq<Seq<char>>) -> Seq<SectionView> {
    raw_doc_from(l, 0).map_values(|sv: SectionView| format_section_view(sv))
}

/// A compiled document: the ordered sections of one source file,
/// never reordered.
pub struct Doc {
    pub sections: Vec<Section>,
}

impl View for Doc {
    type V = Seq<SectionView>;

    open spec fn view(&self) -> Seq<SectionView> {
        self.sections@.map_values(|s: Section| s@)
    }
}

/// Compiles the lines of one source file into a document: classifies
/// each line by its prefix, groups maximal runs of same-tagged lines
/// into sections with per-variant stripping, then formats the code
/// sections.  Succeeds on every input, the empty one included.
pub fn compile(lines: &Vec<String>) -> (r: Result<Doc, CompileError>)
    ensures
        r matches Ok(d) && d@ == doc_spec(lines.deep_view()),
{
    let ghost l = lines.deep_view();
    let mut sections: Vec<Section> = Vec::new();
    let mut i: usize = 0;
    while i < lines.len()
        invariant
            0 <= i as int <= l.len(),
            l == lines.deep_view(),
            sections@.map_values(|s: Section| s@) + raw_doc_from(l, i as int) =~= raw_doc_from(
                l,
                0,
            ),
        decreases l.len() - i,
    {
        let ghost i_pre = i as int;
        let t = classify(lines[i].as_str());
        let parsed = if t == Tag::DocComment {
            parse_doc_comment(lines, &mut i)
        } else if t == Tag::Comment {
            parse_comment(lines, &mut i)
        } else {
            parse_code(lines, &mut i)
        };
        match parsed {
            Ok(sec) => {
                let ghost svs0 = sections@.map_values(|s: Section| s@);
                sections.push(sec);
                proof {
                    assert(sections@.map_values(|s: Section| s@) =~= svs0.push(
                        raw_section_view(l, i_pre),
                    ));
                    assert(raw_doc_from(l, i_pre) == seq![raw_section_view(l, i_pre)]
                        + raw_doc_from(l, i as int));
                    assert(svs0.push(raw_section_view(l, i_pre)) + raw_doc_from(l, i as int)
                        =~= svs0 + raw_doc_from(l, i_pre));
                }
            },
            Err(e) => {
                return Err(e);
            },
        }
    }
    proof {
        assert(sections@.map_values(|s: Section| s@) =~= raw_doc_from(l, 0));
    }
    let ghost raw = raw_doc_from(l, 0);
    let mut formatted: Vec<Section> = Vec::new();
    while sections.len() > 0
        invariant
            raw == raw_doc_from(l, 0),
            formatted@.len() + sections@.len() == raw.len(),
            formatted@.map_values(|s: Section| s@) =~= doc_spec(l).take(formatted@.len() as int),
            sections@.map_values(|s: Section| s@) =~= raw.skip(formatted@.len() as int),
        decreases sections@.len(),
    {
        let ghost k = formatted@.len() as int;
        let ghost vec0 = sections@;
        let ghost secs0 = sections@.map_values(|s: Section| s@);
        let ghost done0 = formatted@.map_values(|s: Section| s@);
        let s = sections.remove(0);
        proof {
            assert(secs0[0] == raw.skip(k)[0]);
            assert(s@ == raw[k]);
            assert(sections@ =~= vec0.drop_first());
            let mapped = sections@.map_values(|ss: Section| ss@);
            assert forall|j: int| 0 <= j < sections@.len() implies #[trigger] mapped[j] == raw.skip(
                k + 1,
            )[j] by {
                assert(sections@[j] == vec0[j + 1]);
                assert(secs0[j + 1] == raw.skip(k)[j + 1]);
            }
            assert(sections@.map_values(|ss: Section| ss@) =~= raw.skip(k + 1));
            assert(doc_spec(l)[k] == format_section_view(raw[k]));
        }
        match s {
            Section::Code { lines: mut ls } => {
                proof {
                    assert(raw[k].tag == Tag::Code);
                }
                format_code(&mut ls);
                let sec = Section::Code { lines: ls };
                proof {
                    assert(sec@ == format_section_view(raw[k]));
                }
                formatted.push(sec);
                proof {
                    assert(formatted@.map_values(|ss: Section| ss@) =~= done0.push(
                        format_section_view(raw[k]),
                    ));
                    assert(done0.push(format_section_view(raw[k])) =~= doc_spec(l).take(k + 1));
                }
            },
            other => {
                proof {
                    assert(other@.tag != Tag::Code);
                    assert(format_section_view(other@) == other@);
                }
                let ghost secv = other@;
                formatted.push(other);
                proof {
                    assert(formatted@.map_values(|ss: Section| ss@) =~= done0.push(secv));
                    assert(done0.push(secv) =~= doc_spec(l).take(k + 1));
                }
            },
        }
    }
    proof {
        assert(doc_spec(l).len() == raw.len());
        assert(formatted@.map_values(|s: Section| s@) =~= doc_spec(l));
    }
    Ok(Doc { sections: formatted })
}

/// The serialized form of a section's lines: every line followed by
/// one line terminator.
pub open spec fn line_block_spec(ls: Seq<Seq<char>>) -> Seq<char>
    decreases ls.len(),
{
    if ls.len() == 0 {
        Seq::empty()
    } else {
        ls[0] + "\n"@ + line_block_spec(ls.drop_first())
    }
}

/// The serialized form of one section: its lines, then one blank
/// separator line.  A section with no lines contributes nothing, not
/// even a separator.
pub open spec fn section_output_spec(sv: SectionView) -> Seq<char> {
    if sv.lines.len() == 0 {
        Seq::empty()
    } else {
        line_block_spec(sv.lines) + "\n"@
    }
}

/// The serialized form of a document: its sections' output, in order.
pub open spec fn doc_output_spec(svs: Seq<SectionView>) -> Seq<char>
    decreases svs.len(),
{
    if svs.len() == 0 {
        Seq::empty()
    } else {
        section_output_spec(svs[0]) + doc_output_spec(svs.drop_first())
    }
}

impl Doc {
    /// Serializes the document, per [`doc_output_spec`]: section by
    /// section in document order, every line followed by a line
    /// terminator and each non-empty section followed by one blank
    /// separator line.
    pub fn render(&self) -> (out: String)
        ensures
            out@ == doc_output_spec(self@),
    {
        let mut out = String::new();
        let n = self.sections.len();
        let mut si: usize = 0;
        proof {
            assert(self@.skip(0) =~= self@);
            assert(out@ + doc_output_spec(self@) =~= doc_output_spec(self@));
        }
        while si < n
            invariant
                0 <= si <= n,
                n == self.sections@.len(),
                doc_output_spec(self@) =~= out@ + doc_output_spec(self@.skip(si as int)),
            decreases n - si,
        {
            let sec = &self.sections[si];
            proof {
                assert(sec@ == self@[si as int]);
                assert(self@.skip(si as int)[0] == self@[si as int]);
                assert(self@.skip(si as int).drop_first() =~= self@.skip(si as int + 1));
            }
            let ls = sec.lines();
            let m = ls.len();
            let ghost base = out@;
            let mut li: usize = 0;
            proof {
                assert(sec@.lines.skip(0) =~= sec@.lines);
                assert(base + line_block_spec(sec@.lines) =~= out@ + line_block_spec(
                    sec@.lines.skip(0),
                ));
            }
            while li < m
                invariant
                    0 <= li <= m,
                    m == ls@.len(),
                    ls.deep_view() == sec@.lines,
                    base + line_block_spec(sec@.lines) =~= out@ + line_block_spec(
                        sec@.lines.skip(li as int),
                    ),
                decreases m - li,
            {
                proof {
                    assert(sec@.lines.skip(li as int)[0] == sec@.lines[li as int]);
                    assert(sec@.lines.skip(li as int).drop_first() =~= sec@.lines.skip(
                        li as int + 1,
                    ));
                    assert(sec@.lines[li as int] == ls@[li as int]@);
                }
                let ghost out0 = out@;
                out.append(ls[li].as_str());
                out.append("\n");
                proof {
                    assert(line_block_spec(sec@.lines.skip(li as int)) == sec@.lines[li as int]
                        + "\n"@ + line_block_spec(sec@.lines.skip(li as int + 1)));
                    assert(out@ =~= out0 + sec@.lines[li as int] + "\n"@);
                    assert(base + line_block_spec(sec@.lines) =~= out@ + line_block_spec(
                        sec@.lines.skip(li as int + 1),
                    ));
                }
                li += 1;
            }
            proof {
                assert(sec@.lines.skip(m as int) =~= Seq::<Seq<char>>::empty());
            }
            if m > 0 {
                out.append("\n");
            }
            proof {
                assert(out@ =~= base + section_output_spec(self@[si as int]));
                assert(doc_output_spec(self@) =~= out@ + doc_output_spec(self@.skip(si as int + 1)));
            }
            si += 1;
        }
        proof {
            assert(self@.skip(n as int) =~= Seq::<SectionView>::empty());
        }
        out
    }
}

/// The raw runs of same-tagged lines from index `i` onward, each run
/// holding its lines exactly as they stand in the input.
pub open spec fn runs_from(l: Seq<Seq<char>>, i: int) -> Seq<Seq<Seq<char>>>
    decreases l.len() - i,
    when 0 <= i <= l.len()
    via runs_from_decreases
{
    if i < l.len() {
        seq![l.subrange(i, run_end(l, i, classify_spec(l[i])))] + runs_from(
            l,
            run_end(l, i, classify_spec(l[i])),
        )
    } else {
        seq![]
    }
}

#[via_fn]
proof fn runs_from_decreases(l: Seq<Seq<char>>, i: int) {
    if 0 <= i < l.len() {
        let t = classify_spec(l[i]);
        lemma_run_end_bounds(l, i + 1, t);
    }
}

/// Flattening the runs from `i` onward gives back the input lines
/// from `i` onward.
proof fn lemma_runs_flatten(l: Seq<Seq<char>>, i: int)
    requires
        0 <= i <= l.len(),
    ensures
        runs_from(l, i).flatten() =~= l.skip(i),
    decreases l.len() - i,
{
    if i < l.len() {
        let t = classify_spec(l[i]);
        let j = run_end(l, i, t);
        lemma_run_end_bounds(l, i + 1, t);
        lemma_runs_flatten(l, j);
        let head = seq![l.subrange(i, j)];
        let rest = runs_from(l, j);
        vstd::seq_lib::lemma_flatten_concat(head, rest);
        head.lemma_flatten_one_element();
        assert(runs_from(l, i).flatten() == l.subrange(i, j) + rest.flatten());
        assert(l.subrange(i, j) + l.skip(j) =~= l.skip(i));
    } else {
        assert(runs_from(l, i) =~= Seq::<Seq<Seq<char>>>::empty());
        assert(runs_from(l, i).flatten() =~= Seq::<Seq<char>>::empty());
        assert(l.skip(i) =~= Seq::<Seq<char>>::empty());
    }
}

/// Grouping by classified tag partitions the input: every run is
/// non-empty, and concatenating the runs' original lines in order
/// reconstructs the input line for line.
pub proof fn lemma_grouping_partitions(l: Seq<Seq<char>>)
    ensures
        runs_from(l, 0).flatten() =~= l,
        forall|k: int| 0 <= k < runs_from(l, 0).len() ==> (#[trigger] runs_from(l, 0)[k]).len() > 0,
{
    lemma_runs_flatten(l, 0);
    assert(l.skip(0) =~= l);
    lemma_sections_match_runs_from(l, 0);
}

/// The correspondence between raw sections and raw runs, from `i`
/// onward: one section per run, with the run's tag, and with the
/// run's lines after per-tag stripping.
proof fn lemma_sections_match_runs_from(l: Seq<Seq<char>>, i: int)
    requires
        0 <= i <= l.len(),
    ensures
        raw_doc_from(l, i).len() == runs_from(l, i).len(),
        forall|k: int| 0 <= k < runs_from(l, i).len() ==> (#[trigger] runs_from(l, i)[k]).len() > 0,
        forall|k: int|
            0 <= k < runs_from(l, i).len() ==> (#[trigger] raw_doc_from(l, i)[k]).tag
                == classify_spec(runs_from(l, i)[k][0]),
        forall|k: int|
            0 <= k < runs_from(l, i).len() ==> (#[trigger] raw_doc_from(l, i)[k]).lines
                == runs_from(l, i)[k].map_values(
                |x: Seq<char>| strip_line_spec(classify_spec(runs_from(l, i)[k][0]), x),
            ),
    decreases l.len() - i,
{
    if i < l.len() {
        let t = classify_spec(l[i]);
        let j = run_end(l, i, t);
        lemma_run_end_bounds(l, i + 1, t);
        lemma_sections_match_runs_from(l, j);
        let run = l.subrange(i, j);
        assert(run[0] == l[i]);
        assert forall|k: int| 0 <= k < runs_from(l, i).len() implies (#[trigger] runs_from(
            l,
            i,
        )[k]).len() > 0 by {
            if k > 0 {
                assert(runs_from(l, i)[k] == runs_from(l, j)[k - 1]);
            }
        }
        assert forall|k: int| 0 <= k < runs_from(l, i).len() implies (#[trigger] raw_doc_from(
            l,
            i,
        )[k]).tag == classify_spec(runs_from(l, i)[k][0]) by {
            if k > 0 {
                assert(runs_from(l, i)[k] == runs_from(l, j)[k - 1]);
                assert(raw_doc_from(l, i)[k] == raw_doc_from(l, j)[k - 1]);
            }
        }
        assert forall|k: int| 0 <= k < runs_from(l, i).len() implies (#[trigger] raw_doc_from(
            l,
            i,
        )[k]).lines == runs_from(l, i)[k].map_values(
            |x: Seq<char>| strip_line_spec(classify_spec(runs_from(l, i)[k][0]), x),
        ) by {
            if k > 0 {
                assert(runs_from(l, i)[k] == runs_from(l, j)[k - 1]);
                assert(raw_doc_from(l, i)[k] == raw_doc_from(l, j)[k - 1]);
            }
        }
    }
}

/// The compiled document has exactly one section per raw run: the
/// section count equals the run count, and each section carries the
/// tag its run's lines classify to.
pub proof fn lemma_doc_matches_runs(l: Seq<Seq<char>>)
    ensures
        doc_spec(l).len() == runs_from(l, 0).len(),
        forall|k: int|
            0 <= k < runs_from(l, 0).len() ==> (#[trigger] doc_spec(l)[k]).tag == classify_spec(
                runs_from(l, 0)[k][0],
            ),
{
    lemma_sections_match_runs_from(l, 0);
    let raw = raw_doc_from(l, 0);
    assert forall|k: int| 0 <= k < runs_from(l, 0).len() implies (#[trigger] doc_spec(l)[k]).tag
        == classify_spec(runs_from(l, 0)[k][0]) by {
        assert(doc_spec(l)[k] == format_section_view(raw[k]));
    }
}

/// Adjacent raw sections carry different tags, and a non-empty
/// document's first section carries the tag of the line it starts at.
#[verifier::rlimit(50)]
proof fn lemma_raw_adjacent(l: Seq<Seq<char>>, i: int)
    requires
        0 <= i <= l.len(),
    ensures
        raw_doc_from(l, i).len() > 0 ==> raw_doc_from(l, i)[0].tag == classify_spec(l[i]),
        forall|k: int|
            0 < k < raw_doc_from(l, i).len() ==> (#[trigger] raw_doc_from(l, i)[k]).tag
                != raw_doc_from(l, i)[k - 1].tag,
    decreases l.len() - i,
{
    if i < l.len() {
        let t = classify_spec(l[i]);
        let j = run_end(l, i, t);
        lemma_run_end_bounds(l, i, t);
        lemma_run_end_bounds(l, i + 1, t);
        lemma_raw_adjacent(l, j);
        assert forall|k: int| 0 < k < raw_doc_from(l, i).len() implies (#[trigger] raw_doc_from(
            l,
            i,
        )[k]).tag != raw_doc_from(l, i)[k - 1].tag by {
            assert(raw_doc_from(l, i)[k] == raw_doc_from(l, j)[k - 1]);
            if k > 1 {
                assert(raw_doc_from(l, i)[k - 1] == raw_doc_from(l, j)[k - 2]);
            } else {
                assert(raw_doc_from(l, i)[0].tag == t);
                assert(raw_doc_from(l, j).len() > 0);
                assert(raw_doc_from(l, j)[0].tag == classify_spec(l[j]));
                assert(classify_spec(l[j]) != t);
            }
        }
    }
}

/// No two adjacent sections of a compiled document share a tag:
/// grouping is maximal, and formatting never changes a section's tag.
pub proof fn lemma_no_adjacent_same_tag(l: Seq<Seq<char>>)
    ensures
        forall|k: int|
            0 < k < doc_spec(l).len() ==> (#[trigger] doc_spec(l)[k]).tag != doc_spec(l)[k - 1].tag,
{
    lemma_raw_adjacent(l, 0);
    let raw = raw_doc_from(l, 0);
    assert forall|k: int| 0 < k < doc_spec(l).len() implies (#[trigger] doc_spec(l)[k]).tag
        != doc_spec(l)[k - 1].tag by {
        assert(doc_spec(l)[k] == format_section_view(raw[k]));
        assert(doc_spec(l)[k - 1] == format_section_view(raw[k - 1]));
    }
}

} // verus!
