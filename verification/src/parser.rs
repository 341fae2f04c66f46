//! The stanza, field and dependency-list parsers.
//!
//! A source text is a sequence of stanzas separated by blank lines.  Each
//! stanza holds `Field: value` lines, optionally followed by space-indented
//! continuation lines that fold into the field's value.  The `Depends`
//! field's value is a `", "`-separated list of clauses, each a `" | "`-
//! separated list of alternatives.

use crate::ast::Document;
use crate::ast::Library;
use crate::ast::LibraryView;
use crate::ast::Package;
use crate::ast::PackageView;
use crate::ast::document_kinds_ok;
use crate::ast::lib_views;
use crate::ast::package_kinds_ok;
use crate::ast::pkg_views;
use crate::text::is_prefix_of;
use crate::text::is_space;
use crate::text::join_lines;
use crate::text::join_nl;
use crate::text::lemma_split_at_first_match;
use crate::text::lemma_split_len;
use crate::text::lemma_split_no_match;
use crate::text::lemma_trim_end_at;
use crate::text::lemma_trim_of_trimmed;
use crate::text::lemma_trim_start_at;
use crate::text::spec_split;
use crate::text::spec_trim;
use crate::text::split_str;
use crate::text::starts_with_str;
use crate::text::str_views;
use crate::text::strip_cr;
use crate::text::strip_cr_str;
use crate::text::trim_str;
use vstd::prelude::*;
use vstd::string::StrSliceExecFns;
use vstd::string::StringExecFns;

verus! {

// ---------------------------------------------------------------------------
// Separators and field names
// ---------------------------------------------------------------------------
/// The line separator.
pub open spec fn newline_sep() -> Seq<char> {
    seq!['\n']
}

/// The separator between dependency clauses.
pub open spec fn comma_sep() -> Seq<char> {
    seq![',', ' ']
}

/// The separator between the alternatives of one dependency clause.
pub open spec fn alt_sep() -> Seq<char> {
    seq![' ', '|', ' ']
}

/// The name of the field that holds the package name.
pub open spec fn package_key() -> Seq<char> {
    seq!['P', 'a', 'c', 'k', 'a', 'g', 'e']
}

/// The name of the field that holds the description.
pub open spec fn description_key() -> Seq<char> {
    seq!['D', 'e', 's', 'c', 'r', 'i', 'p', 't', 'i', 'o', 'n']
}

/// The name of the field that holds the dependency list.
pub open spec fn depends_key() -> Seq<char> {
    seq!['D', 'e', 'p', 'e', 'n', 'd', 's']
}

/// A field's name followed by `": "`, as it stands at the front of the line
/// that starts the field.
pub open spec fn key_prefix(f: Seq<char>) -> Seq<char> {
    f + seq![':', ' ']
}

/// The recognized field names.  The set is intentionally closed: these are
/// the only fields the parser consumes; any other field in the input is
/// passed over.  Recognizing one more field is a simple, low-risk addition.
#[derive(Debug, Clone)]
pub enum FieldName {
    Package,
    Depends,
    Description,
}

impl FieldName {
    /// The field's name, as written in the input.
    pub open spec fn key(&self) -> Seq<char> {
        match self {
            FieldName::Package => package_key(),
            FieldName::Depends => depends_key(),
            FieldName::Description => description_key(),
        }
    }

    /// The field's name as a string slice.
    pub fn as_str(&self) -> (r: &'static str)
        ensures
            r@ == self.key(),
    {
        match self {
            FieldName::Package => {
                proof {
                    reveal_strlit("Package");
                    assert(("Package")@ =~= package_key());
                }
                "Package"
            },
            FieldName::Depends => {
                proof {
                    reveal_strlit("Depends");
                    assert(("Depends")@ =~= depends_key());
                }
                "Depends"
            },
            FieldName::Description => {
                proof {
                    reveal_strlit("Description");
                    assert(("Description")@ =~= description_key());
                }
                "Description"
            },
        }
    }
}

// ---------------------------------------------------------------------------
// Errors
// ---------------------------------------------------------------------------
/// Describes an error that may occur when parsing a source string.
#[derive(Debug, Clone)]
pub enum ParseError {
    PackageNameNotFound(String),
}

impl ParseError {
    /// Lays out an error message: the error, a blank line, then the
    /// offending source text.
    pub fn write_error(error: &str, source: &str) -> (r: String)
        ensures
            r@ == error@ + seq!['\n', '\n'] + source@,
    {
        proof {
            reveal_strlit("\n\n");
            assert(("\n\n")@ =~= seq!['\n', '\n']);
        }
        String::from_str(error).concat("\n\n").concat(source)
    }

    /// The error as a message for the user, with the offending stanza.
    pub fn message(&self) -> (r: String)
        ensures
            self matches ParseError::PackageNameNotFound(t) ==> r@ == ("package name not found")@
                + seq!['\n', '\n'] + t@,
    {
        match self {
            ParseError::PackageNameNotFound(t) => ParseError::write_error(
                "package name not found",
                t.as_str(),
            ),
        }
    }
}

// ---------------------------------------------------------------------------
// The field extractor's specification
// ---------------------------------------------------------------------------
/// The content lines contributed by the continuation lines at the front of
/// `lines`: each line that begins with a space is trimmed and kept; the
/// first line that does not begin with a space (or is empty) ends the field.
pub open spec fn continuation_lines(lines: Seq<Seq<char>>) -> Seq<Seq<char>>
    decreases lines.len(),
{
    if lines.len() == 0 {
        Seq::empty()
    } else if lines[0].len() > 0 && lines[0][0] == ' ' {
        seq![spec_trim(lines[0])] + continuation_lines(lines.subrange(1, lines.len() as int))
    } else {
        Seq::empty()
    }
}

/// The content lines of the field named `f`: lines are skipped until the
/// first one that starts with `f` and `": "`; the rest of that line is the
/// first content line, and the continuation lines that follow it are the
/// others.  A stanza without such a line contributes no content lines.
pub open spec fn field_lines(f: Seq<char>, lines: Seq<Seq<char>>) -> Seq<Seq<char>>
    decreases lines.len(),
{
    if lines.len() == 0 {
        Seq::empty()
    } else if is_prefix_of(key_prefix(f), lines[0]) {
        seq![lines[0].subrange(key_prefix(f).len() as int, lines[0].len() as int)]
            + continuation_lines(lines.subrange(1, lines.len() as int))
    } else {
        field_lines(f, lines.subrange(1, lines.len() as int))
    }
}

/// The lines of a text: the pieces between newlines, each piece that stood
/// before a newline with one trailing carriage return removed, so a `\r\n`
/// line ending reads as a `\n` one, as `str::lines` reads it.
pub open spec fn spec_lines(s: Seq<char>) -> Seq<Seq<char>> {
    let raw = spec_split(s, newline_sep());
    raw.map(|i: int, l: Seq<char>| if i < raw.len() - 1 {
        strip_cr(l)
    } else {
        l
    })
}

/// The logical value of the field named `f` in the stanza text `stanza`:
/// the field's content lines joined with newlines, trimmed of leading and
/// trailing whitespace.  An absent field yields the empty string.
pub open spec fn spec_field_value(f: Seq<char>, stanza: Seq<char>) -> Seq<char> {
    spec_trim(join_nl(field_lines(f, spec_lines(stanza))))
}

// ---------------------------------------------------------------------------
// The field extractor
// ---------------------------------------------------------------------------
/// Splits a text into its lines, per `spec_lines`.
fn split_lines(source: &str) -> (r: Vec<String>)
    ensures
        str_views(r@) == spec_lines(source@),
{
    proof {
        reveal_strlit("\n");
        assert(("\n")@ =~= newline_sep());
    }
    let raw = split_str(source, "\n");
    let mut lines: Vec<String> = Vec::new();
    let mut i: usize = 0;
    while i < raw.len()
        invariant
            str_views(raw@) == spec_split(source@, newline_sep()),
            0 <= i <= raw@.len(),
            lines@.len() == i,
            forall|p: int|
                0 <= p < i ==> #[trigger] lines@[p]@ == if p < raw@.len() - 1 {
                    strip_cr(raw@[p]@)
                } else {
                    raw@[p]@
                },
        decreases raw@.len() - i,
    {
        if i + 1 < raw.len() {
            lines.push(strip_cr_str(raw[i].as_str()));
        } else {
            lines.push(raw[i].as_str().to_owned());
        }
        i = i + 1;
    }
    proof {
        assert(str_views(lines@) =~= spec_lines(source@));
    }
    lines
}

/// Tests whether a line continues the field above it: it is non-empty and
/// begins with a space.
fn is_continuation(line: &str) -> (r: bool)
    ensures
        r == (line@.len() > 0 && line@[0] == ' '),
{
    if line.unicode_len() > 0 {
        line.get_char(0) == ' '
    } else {
        false
    }
}

/// Extracts the logical value of the field `field_name` from one stanza's
/// text, reconstructing a folded value from its continuation lines.  The
/// value of an absent field is the empty string.  Extraction itself cannot
/// fail; the `Result` mirrors the signature of the other parsing operations.
pub fn parse_field(field_name: FieldName, source: &str) -> (r: Result<String, ParseError>)
    ensures
        r matches Ok(v) && v@ == spec_field_value(field_name.key(), source@),
{
    proof {
        reveal_strlit(": ");
        assert((": ")@ =~= seq![':', ' ']);
    }
    let ghost fkey = field_name.key();
    let lines = split_lines(source);
    let ghost all = str_views(lines@);
    proof {
        assert(all == spec_lines(source@));
        assert(all.subrange(0, all.len() as int) =~= all);
    }
    let prefix = String::from_str(field_name.as_str()).concat(": ");
    proof {
        assert(prefix@ == key_prefix(fkey));
    }
    let mut i: usize = 0;
    while i < lines.len() && !starts_with_str(lines[i].as_str(), prefix.as_str())
        invariant
            all == str_views(lines@),
            prefix@ == key_prefix(fkey),
            0 <= i <= lines@.len(),
            field_lines(fkey, all) == field_lines(
                fkey,
                all.subrange(i as int, all.len() as int),
            ),
        decreases lines@.len() - i,
    {
        proof {
            let sub = all.subrange(i as int, all.len() as int);
            assert(sub[0] == all[i as int]);
            assert(sub.subrange(1, sub.len() as int) =~= all.subrange(
                i + 1,
                all.len() as int,
            ));
        }
        i = i + 1;
    }
    if i == lines.len() {
        proof {
            assert(all.subrange(i as int, all.len() as int) =~= Seq::<Seq<char>>::empty());
            assert(field_lines(fkey, all) =~= Seq::<Seq<char>>::empty());
            assert(join_nl(Seq::<Seq<char>>::empty()) =~= Seq::<char>::empty());
        }
        return Ok(String::new());
    }
    // The line at `i` starts the field: the rest of the line after the
    // prefix is the first content line.
    let llen = lines[i].as_str().unicode_len();
    let plen = prefix.as_str().unicode_len();
    let mut content: Vec<String> = Vec::new();
    content.push(lines[i].as_str().substring_char(plen, llen).to_owned());
    proof {
        let sub = all.subrange(i as int, all.len() as int);
        assert(sub[0] == all[i as int]);
        assert(sub.subrange(1, sub.len() as int) =~= all.subrange(i + 1, all.len() as int));
        assert(str_views(content@) =~= seq![
            all[i as int].subrange(key_prefix(fkey).len() as int, all[i as int].len() as int),
        ]);
    }
    let mut j: usize = i + 1;
    while j < lines.len() && is_continuation(lines[j].as_str())
        invariant
            all == str_views(lines@),
            0 <= j <= lines@.len(),
            field_lines(fkey, all) == str_views(content@) + continuation_lines(
                all.subrange(j as int, all.len() as int),
            ),
        decreases lines@.len() - j,
    {
        let trimmed = trim_str(lines[j].as_str());
        proof {
            let sub = all.subrange(j as int, all.len() as int);
            assert(sub[0] == all[j as int]);
            assert(sub.subrange(1, sub.len() as int) =~= all.subrange(
                j + 1,
                all.len() as int,
            ));
            assert(str_views(content@.push(trimmed)) =~= str_views(content@) + seq![
                spec_trim(all[j as int]),
            ]);
            assert(str_views(content@) + (seq![spec_trim(all[j as int])] + continuation_lines(
                all.subrange(j + 1, all.len() as int),
            )) =~= (str_views(content@) + seq![spec_trim(all[j as int])]) + continuation_lines(
                all.subrange(j + 1, all.len() as int),
            ));
        }
        content.push(trimmed);
        j = j + 1;
    }
    proof {
        let sub = all.subrange(j as int, all.len() as int);
        if j < lines@.len() {
            assert(sub[0] == all[j as int]);
        }
        assert(continuation_lines(sub) =~= Seq::<Seq<char>>::empty());
        assert(field_lines(fkey, all) =~= str_views(content@));
    }
    let joined = join_lines(&content);
    Ok(trim_str(joined.as_str()))
}

// ---------------------------------------------------------------------------
// The dependency-list parser
// ---------------------------------------------------------------------------
/// The dependency entry written as one clause: the alternatives are split
/// on `" | "`; the first is the entry's name, the rest its alternates.
pub open spec fn clause_library(c: Seq<char>) -> LibraryView {
    let alts = spec_split(c, alt_sep());
    LibraryView { name: alts[0], alternates: alts.subrange(1, alts.len() as int) }
}

/// The dependency entries written in a `Depends` value: the empty value
/// holds none; otherwise the value is split on `", "` into clauses, one
/// entry per clause.
pub open spec fn spec_libraries(s: Seq<char>) -> Seq<LibraryView> {
    if s.len() == 0 {
        Seq::empty()
    } else {
        spec_split(s, comma_sep()).map_values(|c: Seq<char>| clause_library(c))
    }
}

/// Parses the raw value of a `Depends` field into its dependency entries,
/// per `spec_libraries`.  Parsing cannot fail: the splitting rules are
/// applied mechanically; the `Result` mirrors the other parsing operations.
pub fn parse_libraries(source: &str) -> (r: Result<Vec<Library>, ParseError>)
    ensures
        r matches Ok(libs) && lib_views(libs@) == spec_libraries(source@),
        forall|i: int|
            0 <= i < r->Ok_0@.len() ==> (#[trigger] r->Ok_0@[i]).kind is Library,
{
    let mut libraries: Vec<Library> = Vec::new();
    if source.unicode_len() == 0 {
        proof {
            assert(lib_views(libraries@) =~= spec_libraries(source@));
        }
        return Ok(libraries);
    }
    proof {
        reveal_strlit(", ");
        assert((", ")@ =~= comma_sep());
        reveal_strlit(" | ");
        assert((" | ")@ =~= alt_sep());
    }
    let ghost cl = spec_split(source@, comma_sep());
    let clauses = split_str(source, ", ");
    let mut idx: usize = 0;
    while idx < clauses.len()
        invariant
            cl == str_views(clauses@),
            (" | ")@ == alt_sep(),
            0 <= idx <= clauses@.len(),
            libraries@.len() == idx,
            forall|p: int| 0 <= p < idx ==> #[trigger] libraries@[p]@ == clause_library(cl[p]),
            forall|p: int| 0 <= p < idx ==> (#[trigger] libraries@[p]).kind is Library,
        decreases clauses@.len() - idx,
    {
        let ghost clause = cl[idx as int];
        let alts = split_str(clauses[idx].as_str(), " | ");
        proof {
            lemma_split_len(clause, alt_sep());
        }
        let name = alts[0].clone();
        let mut alternates: Vec<String> = Vec::new();
        let mut k: usize = 1;
        while k < alts.len()
            invariant
                str_views(alts@) == spec_split(clause, alt_sep()),
                spec_split(clause, alt_sep()).len() >= 1,
                1 <= k <= alts@.len(),
                alternates@.len() == k - 1,
                forall|p: int| 0 <= p < k - 1 ==> #[trigger] alternates@[p]@ == alts@[p + 1]@,
            decreases alts@.len() - k,
        {
            alternates.push(alts[k].clone());
            k = k + 1;
        }
        proof {
            let sa = spec_split(clause, alt_sep());
            assert(str_views(alternates@) =~= sa.subrange(1, sa.len() as int));
            assert(name@ == sa[0]);
        }
        let lib = Library::new(name, alternates);
        proof {
            assert(lib@ =~= clause_library(clause));
        }
        libraries.push(lib);
        idx = idx + 1;
    }
    proof {
        assert(lib_views(libraries@) =~= cl.map_values(|c: Seq<char>| clause_library(c)));
    }
    Ok(libraries)
}

// ---------------------------------------------------------------------------
// Package assembly
// ---------------------------------------------------------------------------
/// The stanza yields a package: its `Package` field has a non-empty value.
pub open spec fn stanza_has_name(stanza: Seq<char>) -> bool {
    spec_field_value(package_key(), stanza).len() > 0
}

/// The package record written in one stanza: the `Package` field is its
/// name, the `Description` field its description, and the entries of the
/// `Depends` field its dependencies.
pub open spec fn spec_package(stanza: Seq<char>) -> PackageView {
    PackageView {
        name: spec_field_value(package_key(), stanza),
        description: spec_field_value(description_key(), stanza),
        depends: spec_libraries(spec_field_value(depends_key(), stanza)),
    }
}

/// Parses one stanza's text into a package.  A stanza whose `Package` field
/// is absent or empty yields `PackageNameNotFound` carrying the stanza text;
/// there is no partial success.
fn parse_package(source: &str) -> (r: Result<Package, ParseError>)
    ensures
        r is Ok <==> stanza_has_name(source@),
        stanza_has_name(source@) ==> (r matches Ok(p) && p@ == spec_package(source@)
            && package_kinds_ok(p)),
        !stanza_has_name(source@) ==> (r matches Err(e) && e matches
            ParseError::PackageNameNotFound(t) && t@ == source@),
{
    let name = match parse_field(FieldName::Package, source) {
        Ok(v) => v,
        Err(e) => { return Err(e) },
    };
    if name.as_str().unicode_len() == 0 {
        return Err(ParseError::PackageNameNotFound(source.to_owned()));
    }
    let description = match parse_field(FieldName::Description, source) {
        Ok(v) => v,
        Err(e) => { return Err(e) },
    };
    let depends_value = match parse_field(FieldName::Depends, source) {
        Ok(v) => v,
        Err(e) => { return Err(e) },
    };
    let depends = match parse_libraries(depends_value.as_str()) {
        Ok(v) => v,
        Err(e) => { return Err(e) },
    };
    let p = Package::new(name, description, depends);
    proof {
        assert(p@ =~= spec_package(source@));
    }
    Ok(p)
}

// ---------------------------------------------------------------------------
// Document assembly
// ---------------------------------------------------------------------------
/// The stanza texts of a source, given its lines and the lines accumulated
/// for the stanza in progress: a non-empty line joins the accumulator; an
/// empty line flushes a non-empty accumulator as one stanza text and is
/// otherwise a no-op; the end of input flushes like a blank line, so the
/// final stanza needs no trailing blank line.
pub open spec fn stanza_texts(lines: Seq<Seq<char>>, acc: Seq<Seq<char>>) -> Seq<Seq<char>>
    decreases lines.len(),
{
    if lines.len() == 0 {
        if acc.len() > 0 {
            seq![join_nl(acc)]
        } else {
            Seq::empty()
        }
    } else if lines[0].len() == 0 {
        if acc.len() > 0 {
            seq![join_nl(acc)] + stanza_texts(lines.subrange(1, lines.len() as int), Seq::empty())
        } else {
            stanza_texts(lines.subrange(1, lines.len() as int), Seq::empty())
        }
    } else {
        stanza_texts(lines.subrange(1, lines.len() as int), acc.push(lines[0]))
    }
}

/// The stanza texts of a source: its maximal runs of non-empty lines,
/// each newline-joined.
pub open spec fn spec_stanzas(source: Seq<char>) -> Seq<Seq<char>> {
    stanza_texts(spec_lines(source), Seq::empty())
}

/// The packages of a sequence of stanzas, or the text of the first stanza
/// without a package name.  A failure aborts the parse: no package of a
/// later stanza is kept.
pub open spec fn parse_stanzas(sts: Seq<Seq<char>>) -> Result<Seq<PackageView>, Seq<char>>
    decreases sts.len(),
{
    if sts.len() == 0 {
        Ok(Seq::empty())
    } else if !stanza_has_name(sts[0]) {
        Err(sts[0])
    } else {
        match parse_stanzas(sts.subrange(1, sts.len() as int)) {
            Ok(rest) => Ok(seq![spec_package(sts[0])] + rest),
            Err(t) => Err(t),
        }
    }
}

/// The parse of a whole source text: the packages of its stanzas, or the
/// text of the first stanza without a package name.
pub open spec fn spec_parse(source: Seq<char>) -> Result<Seq<PackageView>, Seq<char>> {
    parse_stanzas(spec_stanzas(source))
}

/// A sequence of packages already parsed, followed by the outcome of the
/// stanzas that remain.
pub open spec fn prepend_packages(
    prefix: Seq<PackageView>,
    rest: Result<Seq<PackageView>, Seq<char>>,
) -> Result<Seq<PackageView>, Seq<char>> {
    match rest {
        Ok(r) => Ok(prefix + r),
        Err(t) => Err(t),
    }
}

/// Parses all packages from a source string, per `spec_parse`: one package
/// for each blank-line-delimited run of non-empty lines, in order, or
/// `PackageNameNotFound` with the text of the first stanza whose `Package`
/// field is absent or empty.
pub fn parse(source: &str) -> (r: Result<Document, ParseError>)
    ensures
        spec_parse(source@) matches Ok(ps) ==> (r matches Ok(d) && d@ == ps
            && document_kinds_ok(d)),
        spec_parse(source@) matches Err(t) ==> (r matches Err(e) && e matches
            ParseError::PackageNameNotFound(s) && s@ == t),
{
    let lines = split_lines(source);
    let ghost all = str_views(lines@);
    proof {
        assert(all.subrange(0, all.len() as int) =~= all);
        assert(str_views(Seq::<String>::empty()) =~= Seq::<Seq<char>>::empty());
    }
    let mut texts: Vec<String> = Vec::new();
    let mut acc: Vec<String> = Vec::new();
    let mut i: usize = 0;
    while i < lines.len()
        invariant
            all == str_views(lines@),
            0 <= i <= lines@.len(),
            spec_stanzas(source@) == str_views(texts@) + stanza_texts(
                all.subrange(i as int, all.len() as int),
                str_views(acc@),
            ),
        decreases lines@.len() - i,
    {
        proof {
            let sub = all.subrange(i as int, all.len() as int);
            assert(sub[0] == all[i as int]);
            assert(sub.subrange(1, sub.len() as int) =~= all.subrange(
                i + 1,
                all.len() as int,
            ));
        }
        if lines[i].as_str().unicode_len() > 0 {
            let line = lines[i].clone();
            proof {
                assert(str_views(acc@.push(line)) =~= str_views(acc@).push(all[i as int]));
            }
            acc.push(line);
        } else {
            if acc.len() > 0 {
                let text = join_lines(&acc);
                proof {
                    assert(str_views(texts@.push(text)) =~= str_views(texts@) + seq![
                        join_nl(str_views(acc@)),
                    ]);
                    assert(str_views(texts@) + (seq![join_nl(str_views(acc@))] + stanza_texts(
                        all.subrange(i + 1, all.len() as int),
                        Seq::empty(),
                    )) =~= (str_views(texts@) + seq![join_nl(str_views(acc@))]) + stanza_texts(
                        all.subrange(i + 1, all.len() as int),
                        Seq::empty(),
                    ));
                    assert(str_views(Seq::<String>::empty()) =~= Seq::<Seq<char>>::empty());
                }
                texts.push(text);
                acc = Vec::new();
                proof {
                    assert(str_views(acc@) =~= Seq::<Seq<char>>::empty());
                }
            } else {
                proof {
                    assert(str_views(acc@) =~= Seq::<Seq<char>>::empty());
                }
            }
        }
        i = i + 1;
    }
    proof {
        assert(all.subrange(i as int, all.len() as int) =~= Seq::<Seq<char>>::empty());
    }
    if acc.len() > 0 {
        let text = join_lines(&acc);
        proof {
            assert(str_views(texts@.push(text)) =~= str_views(texts@) + seq![
                join_nl(str_views(acc@)),
            ]);
        }
        texts.push(text);
    }
    proof {
        assert(spec_stanzas(source@) =~= str_views(texts@));
    }
    // Each stanza text yields one package; the first failure aborts.
    let ghost sts = spec_stanzas(source@);
    let mut packages: Vec<Package> = Vec::new();
    let mut k: usize = 0;
    proof {
        assert(sts.subrange(0, sts.len() as int) =~= sts);
        assert(pkg_views(packages@) + parse_stanzas(sts)->Ok_0 =~= parse_stanzas(sts)->Ok_0);
        if parse_stanzas(sts) is Ok {
            assert(prepend_packages(pkg_views(packages@), parse_stanzas(sts))
                == parse_stanzas(sts));
        }
    }
    while k < texts.len()
        invariant
            sts == str_views(texts@),
            0 <= k <= texts@.len(),
            packages@.len() == k,
            forall|p: int| 0 <= p < k ==> package_kinds_ok(#[trigger] packages@[p]),
            spec_parse(source@) == prepend_packages(
                pkg_views(packages@),
                parse_stanzas(sts.subrange(k as int, sts.len() as int)),
            ),
        decreases texts@.len() - k,
    {
        let ghost sub = sts.subrange(k as int, sts.len() as int);
        proof {
            assert(sub[0] == sts[k as int]);
            assert(sub.subrange(1, sub.len() as int) =~= sts.subrange(
                k + 1,
                sts.len() as int,
            ));
        }
        match parse_package(texts[k].as_str()) {
            Ok(p) => {
                proof {
                    let rest = parse_stanzas(sts.subrange(k + 1, sts.len() as int));
                    if rest is Ok {
                        assert(pkg_views(packages@.push(p)) =~= pkg_views(packages@).push(p@));
                        assert(pkg_views(packages@) + (seq![spec_package(sts[k as int])]
                            + rest->Ok_0) =~= pkg_views(packages@.push(p)) + rest->Ok_0);
                    }
                }
                packages.push(p);
            },
            Err(e) => {
                proof {
                    assert(parse_stanzas(sub) == Err::<Seq<PackageView>, Seq<char>>(
                        sts[k as int],
                    ));
                }
                return Err(e);
            },
        }
        k = k + 1;
    }
    proof {
        assert(sts.subrange(k as int, sts.len() as int) =~= Seq::<Seq<char>>::empty());
        assert(pkg_views(packages@) + Seq::<PackageView>::empty() =~= pkg_views(packages@));
    }
    Ok(Document::new(packages))
}

// ---------------------------------------------------------------------------
// Laws
// ---------------------------------------------------------------------------
proof fn lemma_parse_stanzas_count(sts: Seq<Seq<char>>)
    requires
        parse_stanzas(sts) is Ok,
    ensures
        parse_stanzas(sts)->Ok_0.len() == sts.len(),
    decreases sts.len(),
{
    if sts.len() == 0 {
    } else {
        lemma_parse_stanzas_count(sts.subrange(1, sts.len() as int));
    }
}

/// On a source that parses, the document holds exactly one package for each
/// blank-line-delimited run of non-empty lines of the source.
pub proof fn lemma_package_count(source: Seq<char>)
    requires
        spec_parse(source) is Ok,
    ensures
        spec_parse(source)->Ok_0.len() == spec_stanzas(source).len(),
{
    lemma_parse_stanzas_count(spec_stanzas(source));
}

proof fn lemma_parse_stanzas_err(sts: Seq<Seq<char>>, k: int)
    requires
        0 <= k < sts.len(),
        !stanza_has_name(sts[k]),
        forall|j: int| 0 <= j < k ==> stanza_has_name(#[trigger] sts[j]),
    ensures
        parse_stanzas(sts) == Err::<Seq<PackageView>, Seq<char>>(sts[k]),
    decreases k,
{
    if k == 0 {
    } else {
        let tail = sts.subrange(1, sts.len() as int);
        assert(stanza_has_name(sts[0]));
        assert forall|j: int| 0 <= j < k - 1 implies stanza_has_name(#[trigger] tail[j]) by {
            assert(tail[j] == sts[j + 1]);
        }
        lemma_parse_stanzas_err(tail, k - 1);
        assert(tail[k - 1] == sts[k]);
    }
}

/// A stanza whose `Package` field is absent or empty makes the whole parse
/// fail with that stanza's text: no package is kept for it, and no later
/// stanza is processed.
pub proof fn lemma_parse_stops_at_first_failure(source: Seq<char>, k: int)
    requires
        0 <= k < spec_stanzas(source).len(),
        !stanza_has_name(spec_stanzas(source)[k]),
        forall|j: int| 0 <= j < k ==> stanza_has_name(#[trigger] spec_stanzas(source)[j]),
    ensures
        spec_parse(source) == Err::<Seq<PackageView>, Seq<char>>(spec_stanzas(source)[k]),
{
    lemma_parse_stanzas_err(spec_stanzas(source), k);
}

/// The string holds no newline: it fits on one line of a stanza.
pub open spec fn has_no_newline(s: Seq<char>) -> bool {
    forall|i: int| 0 <= i < s.len() ==> s[i] != '\n'
}

proof fn lemma_split_nl_single(x: Seq<char>)
    requires
        has_no_newline(x),
    ensures
        spec_split(x, newline_sep()) == seq![x],
{
    assert forall|i: int| 0 <= i <= x.len() - 1 implies #[trigger] x.subrange(i, i + 1)
        != newline_sep() by {
        assert(x.subrange(i, i + 1)[0] == x[i]);
    }
    lemma_split_no_match(x, newline_sep());
}

proof fn lemma_split_nl_prepend(x: Seq<char>, y: Seq<char>)
    requires
        has_no_newline(x),
    ensures
        spec_split(x + seq!['\n'] + y, newline_sep()) == seq![x] + spec_split(y, newline_sep()),
{
    let s = x + seq!['\n'] + y;
    let k = x.len() as int;
    assert(s.subrange(k, k + 1) =~= newline_sep());
    assert forall|i: int| 0 <= i < k implies #[trigger] s.subrange(i, i + 1) != newline_sep() by {
        assert(s.subrange(i, i + 1)[0] == s[i]);
        assert(s[i] == x[i]);
    }
    lemma_split_at_first_match(s, newline_sep(), k);
    assert(s.subrange(0, k) =~= x);
    assert(s.subrange(k + 1, s.len() as int) =~= y);
}

/// Round trip on field extraction: a field written as `F: A` with
/// continuation lines `  B` and `  C` extracts to `A`, `B` and `C` joined
/// by newlines, for any already-trimmed one-line values `A`, `B` and `C`.
pub proof fn lemma_field_round_trip(f: Seq<char>, a: Seq<char>, b: Seq<char>, c: Seq<char>)
    requires
        a.len() > 0,
        b.len() > 0,
        c.len() > 0,
        has_no_newline(f),
        has_no_newline(a),
        has_no_newline(b),
        has_no_newline(c),
        !is_space(a[0]),
        !is_space(a[a.len() - 1]),
        !is_space(b[0]),
        !is_space(b[b.len() - 1]),
        !is_space(c[0]),
        !is_space(c[c.len() - 1]),
    ensures
        spec_field_value(
            f,
            key_prefix(f) + a + seq!['\n', ' ', ' '] + b + seq!['\n', ' ', ' '] + c,
        ) == a + seq!['\n'] + b + seq!['\n'] + c,
{
    let l1 = key_prefix(f) + a;
    let l2 = seq![' ', ' '] + b;
    let l3 = seq![' ', ' '] + c;
    let stanza = key_prefix(f) + a + seq!['\n', ' ', ' '] + b + seq!['\n', ' ', ' '] + c;
    assert(stanza =~= l1 + seq!['\n'] + (l2 + seq!['\n'] + l3));
    assert forall|i: int| 0 <= i < l1.len() implies l1[i] != '\n' by {
        if i < f.len() {
            assert(l1[i] == f[i]);
        } else if i >= key_prefix(f).len() {
            assert(l1[i] == a[i - key_prefix(f).len()]);
        }
    }
    assert forall|i: int| 0 <= i < l2.len() implies l2[i] != '\n' by {
        if i >= 2 {
            assert(l2[i] == b[i - 2]);
        }
    }
    lemma_split_nl_prepend(l1, l2 + seq!['\n'] + l3);
    lemma_split_nl_prepend(l2, l3);
    lemma_split_nl_single(l3);
    assert(spec_split(stanza, newline_sep()) =~= seq![l1, l2, l3]);
    // Neither of the first two lines ends in a carriage return: their last
    // characters are the last characters of `a` and `b`, not whitespace.
    assert(strip_cr(l1) == l1) by {
        assert(l1[l1.len() - 1] == a[a.len() - 1]);
    }
    assert(strip_cr(l2) == l2) by {
        assert(l2[l2.len() - 1] == b[b.len() - 1]);
    }
    let lines = spec_lines(stanza);
    assert(lines =~= seq![l1, l2, l3]);
    // The first line starts the field, and carries `a` after the prefix.
    assert(is_prefix_of(key_prefix(f), l1)) by {
        assert(l1.subrange(0, key_prefix(f).len() as int) =~= key_prefix(f));
    }
    assert(l1.subrange(key_prefix(f).len() as int, l1.len() as int) =~= a);
    assert(lines.subrange(1, 3) =~= seq![l2, l3]);
    // The continuation lines carry `b` and `c`, trimmed.
    assert(spec_trim(l2) == b) by {
        lemma_trim_start_at(l2, 2);
        assert(l2.subrange(2, l2.len() as int) =~= b);
        lemma_trim_end_at(b, b.len() as int);
        assert(b.subrange(0, b.len() as int) =~= b);
    }
    assert(spec_trim(l3) == c) by {
        lemma_trim_start_at(l3, 2);
        assert(l3.subrange(2, l3.len() as int) =~= c);
        lemma_trim_end_at(c, c.len() as int);
        assert(c.subrange(0, c.len() as int) =~= c);
    }
    assert(seq![l2, l3].subrange(1, 2) =~= seq![l3]);
    assert(seq![l3].subrange(1, 1) =~= Seq::<Seq<char>>::empty());
    assert(continuation_lines(Seq::<Seq<char>>::empty()) =~= Seq::<Seq<char>>::empty());
    assert(continuation_lines(seq![l3]) =~= seq![c]);
    assert(continuation_lines(seq![l2, l3]) =~= seq![b, c]);
    assert(field_lines(f, lines) =~= seq![a, b, c]);
    // Joining and trimming keeps the three content lines as written.
    let v = a + seq!['\n'] + b + seq!['\n'] + c;
    assert(seq![a, b, c].subrange(1, 3) =~= seq![b, c]);
    assert(seq![b, c].subrange(1, 2) =~= seq![c]);
    assert(join_nl(seq![c]) == c);
    assert(join_nl(seq![b, c]) =~= b + seq!['\n'] + c);
    assert(join_nl(seq![a, b, c]) =~= v);
    assert(v[0] == a[0]);
    assert(v[v.len() - 1] == c[c.len() - 1]);
    lemma_trim_of_trimmed(v);
}

/// A continuation line holding a single `.` stands for an intentionally
/// blank paragraph line: the `.` is preserved verbatim in the value, never
/// removed or treated as a break marker.
pub proof fn lemma_dot_line_preserved(f: Seq<char>, a: Seq<char>, c: Seq<char>)
    requires
        a.len() > 0,
        c.len() > 0,
        has_no_newline(f),
        has_no_newline(a),
        has_no_newline(c),
        !is_space(a[0]),
        !is_space(a[a.len() - 1]),
        !is_space(c[0]),
        !is_space(c[c.len() - 1]),
    ensures
        spec_field_value(
            f,
            key_prefix(f) + a + seq!['\n', ' ', ' ', '.'] + seq!['\n', ' ', ' '] + c,
        ) == a + seq!['\n', '.', '\n'] + c,
{
    let dot = seq!['.'];
    assert(!is_space(dot[0]));
    assert(dot[0] != '\n');
    lemma_field_round_trip(f, a, dot, c);
    assert(key_prefix(f) + a + seq!['\n', ' ', ' ', '.'] + seq!['\n', ' ', ' '] + c =~= key_prefix(
        f,
    ) + a + seq!['\n', ' ', ' '] + dot + seq!['\n', ' ', ' '] + c);
    assert(a + seq!['\n', '.', '\n'] + c =~= a + seq!['\n'] + dot + seq!['\n'] + c);
}

} // verus!
