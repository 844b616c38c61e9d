//! Finding tagged comments (`TODO: ...`) in the lines of a file.

use vstd::prelude::*;

use crate::domain::annotation::Finding;
use crate::domain::ids::RepositoryId;
use crate::domain::workspace::AnnotationTagMapping;
use crate::text::{join_seqs, lemma_join_push, owned, push_char, push_str, trim, trim_str};

verus! {

#[verifier::external_type_specification]
#[verifier::external_body]
pub struct ExRegex(regex::Regex);

/// The characters that have a meaning in a regular expression.
pub open spec fn is_meta_character(c: char) -> bool {
    c == '\\' || c == '.' || c == '+' || c == '*' || c == '?' || c == '(' || c == ')' || c == '|'
        || c == '[' || c == ']' || c == '{' || c == '}' || c == '^' || c == '$' || c == '#' || c
        == '&' || c == '-' || c == '~'
}

/// The text with a backslash before every meta character.
pub open spec fn escaped(s: Seq<char>) -> Seq<char>
    decreases s.len(),
{
    if s.len() == 0 {
        Seq::empty()
    } else if is_meta_character(s.last()) {
        escaped(s.drop_last()) + seq!['\\', s.last()]
    } else {
        escaped(s.drop_last()).push(s.last())
    }
}

/// `regex::escape`: the text with a backslash put before each meta character (the characters
/// `\ . + * ? ( ) | [ ] { } ^ $ # & - ~`), every other character kept.
#[verifier::external_body]
fn escape_tag(tag: &str) -> (r: String)
    ensures
        r@ == escaped(tag@),
{
    regex::escape(tag)
}

/// Whether `regex::Regex::new` accepts the pattern.
pub uninterp spec fn regex_compiles(pattern: Seq<char>) -> bool;

/// `regex::Regex::new(pattern).ok()`: a compiled pattern exactly when the pattern is accepted.
#[verifier::external_body]
fn compile(pattern: &str) -> (r: Option<regex::Regex>)
    ensures
        r is Some <==> regex_compiles(pattern@),
{
    regex::Regex::new(pattern).ok()
}

/// The first and second capture groups of the leftmost match of the pattern in the line,
/// when there is a match and both groups took part in it.
pub uninterp spec fn regex_groups(pattern: Seq<char>, line: Seq<char>) -> Option<(Seq<char>, Seq<char>)>;

/// A compiled tag pattern, with the pattern text it was compiled from.
pub struct TagPattern {
    regex: regex::Regex,
    pattern: Ghost<Seq<char>>,
}

impl View for TagPattern {
    type V = Seq<char>;

    closed spec fn view(&self) -> Seq<char> {
        self.pattern@
    }
}

/// `regex::Regex::captures`, then groups 1 and 2 as text: the groups of the leftmost match of
/// the compiled pattern in the line, as `regex_groups` names them.
#[verifier::external_body]
fn capture_groups(pattern: &TagPattern, line: &str) -> (r: Option<(String, String)>)
    ensures
        match r {
            Some(g) => regex_groups(pattern@, line@) == Some((g.0@, g.1@)),
            None => regex_groups(pattern@, line@) is None,
        },
{
    let captures = pattern.regex.captures(line)?;
    Some((captures.get(1)?.as_str().to_owned(), captures.get(2)?.as_str().to_owned()))
}

/// The Unicode upper-case form of a text (`str::to_uppercase`).
pub uninterp spec fn unicode_upper(s: Seq<char>) -> Seq<char>;

/// `str::to_uppercase`: the Unicode upper-case form of the text, as `unicode_upper` names it.
#[verifier::external_body]
fn to_uppercase(s: &str) -> (r: String)
    ensures
        r@ == unicode_upper(s@),
{
    s.to_uppercase()
}

/// The number of bytes of a character in UTF-8.
pub open spec fn utf8_width(c: char) -> nat {
    if (c as int) < 0x80 {
        1
    } else if (c as int) < 0x800 {
        2
    } else if (c as int) < 0x10000 {
        3
    } else {
        4
    }
}

/// The number of bytes of a text in UTF-8 (`str::len`).
pub open spec fn utf8_len(s: Seq<char>) -> nat
    decreases s.len(),
{
    if s.len() == 0 {
        0
    } else {
        utf8_len(s.drop_last()) + utf8_width(s.last())
    }
}

fn byte_len(s: &str) -> (n: u128)
    ensures
        n == utf8_len(s@),
{
    let len = s.unicode_len();
    let mut n: u128 = 0;
    let mut i: usize = 0;
    while i < len
        invariant
            len == s@.len(),
            i <= len,
            n == utf8_len(s@.subrange(0, i as int)),
            n <= 4 * i,
        decreases len - i,
    {
        let c = s.get_char(i);
        assert(s@.subrange(0, i + 1).drop_last() =~= s@.subrange(0, i as int));
        let w: u128 = if (c as u32) < 0x80 {
            1
        } else if (c as u32) < 0x800 {
            2
        } else if (c as u32) < 0x10000 {
            3
        } else {
            4
        };
        n = n + w;
        i = i + 1;
    }
    assert(s@.subrange(0, len as int) =~= s@);
    n
}

/// `s` with `x` put after every element whose length is at least its own.
pub open spec fn insert_by_length(s: Seq<(Seq<char>, nat)>, x: (Seq<char>, nat)) -> Seq<(Seq<char>, nat)>
    decreases s.len(),
{
    if s.len() == 0 {
        seq![x]
    } else if s.last().1 >= x.1 {
        s.push(x)
    } else {
        insert_by_length(s.drop_last(), x).push(s.last())
    }
}

/// The texts with their lengths, longest first; texts of equal length keep their order.
pub open spec fn by_length(s: Seq<(Seq<char>, nat)>) -> Seq<(Seq<char>, nat)>
    decreases s.len(),
{
    if s.len() == 0 {
        Seq::empty()
    } else {
        insert_by_length(by_length(s.drop_last()), s.last())
    }
}

/// The escaped tags with their lengths in bytes, in configuration order.
pub open spec fn escaped_tags(tags: Seq<String>) -> Seq<(Seq<char>, nat)> {
    tags.map_values(|t: String| (escaped(t@), utf8_len(escaped(t@))))
}

/// The pattern that finds any of the tags, longest alternative first: the tag at the start of
/// the line or after a character that is not a letter, digit or `_`, then a colon or spaces,
/// then the message.
pub open spec fn tag_pattern_text(tags: Seq<String>) -> Seq<char> {
    "(?i)(?:^|[^A-Za-z0-9_])("@ + join_seqs(
        by_length(escaped_tags(tags)).map_values(|e: (Seq<char>, nat)| e.0),
        "|"@,
    ) + ")(?:\\s*:\\s*|\\s+)(\\S.*)"@
}


/// Where `insert_by_length` puts `x`: after the last element, counted from the end, whose
/// length is at least its own.
pub open spec fn back_position(s: Seq<(Seq<char>, nat)>, x: (Seq<char>, nat)) -> int
    decreases s.len(),
{
    if s.len() == 0 {
        0
    } else if s.last().1 >= x.1 {
        s.len() as int
    } else {
        back_position(s.drop_last(), x)
    }
}

proof fn lemma_insert_by_length(s: Seq<(Seq<char>, nat)>, x: (Seq<char>, nat))
    ensures
        0 <= back_position(s, x) <= s.len(),
        insert_by_length(s, x) == s.insert(back_position(s, x), x),
    decreases s.len(),
{
    if s.len() > 0 && s.last().1 < x.1 {
        lemma_insert_by_length(s.drop_last(), x);
        let p = back_position(s.drop_last(), x);
        assert(s.drop_last().insert(p, x).push(s.last()) =~= s.insert(p, x));
    } else if s.len() > 0 {
        assert(s.push(x) =~= s.insert(s.len() as int, x));
    } else {
        assert(seq![x] =~= s.insert(0, x));
    }
}

/// The texts and lengths of escaped tags.
pub open spec fn pair_views(v: Seq<(String, u128)>) -> Seq<(Seq<char>, nat)> {
    v.map_values(|e: (String, u128)| (e.0@, e.1 as nat))
}

/// The pattern that finds the configured tags (see `tag_pattern_text`); `None` when there is
/// no tag or the pattern does not compile.
pub fn build_regex(tags: &Vec<String>) -> (r: Option<TagPattern>)
    ensures
        tags@.len() == 0 ==> r is None,
        tags@.len() > 0 ==> (r is Some <==> regex_compiles(tag_pattern_text(tags@))),
        r matches Some(p) ==> p@ == tag_pattern_text(tags@),
{
    if tags.len() == 0 {
        return None;
    }
    let mut sorted: Vec<(String, u128)> = Vec::new();
    let mut i: usize = 0;
    while i < tags.len()
        invariant
            i <= tags@.len(),
            pair_views(sorted@) == by_length(escaped_tags(tags@.subrange(0, i as int))),
        decreases tags@.len() - i,
    {
        let e = escape_tag(tags[i].as_str());
        let n = byte_len(e.as_str());
        let ghost x = (e@, n as nat);
        let ghost before = pair_views(sorted@);
        let mut p: usize = sorted.len();
        assert(before.subrange(0, p as int) =~= before);
        while p > 0 && sorted[p - 1].1 < n
            invariant
                p <= sorted@.len(),
                before == pair_views(sorted@),
                back_position(before, x) == back_position(before.subrange(0, p as int), x),
            decreases p,
        {
            assert(before.subrange(0, p as int).drop_last() =~= before.subrange(0, p - 1));
            p = p - 1;
        }
        proof {
            if p > 0 {
                assert(before.subrange(0, p as int).last() == before[p - 1]);
            }
            assert(back_position(before.subrange(0, p as int), x) == p);
            lemma_insert_by_length(before, x);
            assert(tags@.subrange(0, i + 1).drop_last() =~= tags@.subrange(0, i as int));
            assert(escaped_tags(tags@.subrange(0, i + 1)) =~= escaped_tags(
                tags@.subrange(0, i as int),
            ).push(x));
            assert(escaped_tags(tags@.subrange(0, i + 1)).drop_last() =~= escaped_tags(
                tags@.subrange(0, i as int),
            ));
        }
        sorted.insert(p, (e, n));
        assert(pair_views(sorted@) =~= before.insert(p as int, x));
        i = i + 1;
    }
    assert(tags@.subrange(0, tags@.len() as int) =~= tags@);
    let ghost parts = pair_views(sorted@).map_values(|e: (Seq<char>, nat)| e.0);
    let mut joined = String::new();
    let mut k: usize = 0;
    while k < sorted.len()
        invariant
            k <= sorted@.len(),
            parts == pair_views(sorted@).map_values(|e: (Seq<char>, nat)| e.0),
            joined@ == join_seqs(parts.subrange(0, k as int), "|"@),
        decreases sorted@.len() - k,
    {
        proof {
            lemma_join_push(parts.subrange(0, k as int), parts[k as int], "|"@);
            assert(parts.subrange(0, k + 1) =~= parts.subrange(0, k as int).push(parts[k as int]));
        }
        if k > 0 {
            push_str(&mut joined, "|");
        }
        push_str(&mut joined, sorted[k].0.as_str());
        k = k + 1;
    }
    assert(parts.subrange(0, sorted@.len() as int) =~= parts);
    let mut pattern = owned("(?i)(?:^|[^A-Za-z0-9_])(");
    push_str(&mut pattern, joined.as_str());
    push_str(&mut pattern, ")(?:\\s*:\\s*|\\s+)(\\S.*)");
    assert(pattern@ =~= tag_pattern_text(tags@));
    match compile(pattern.as_str()) {
        Some(regex) => Some(TagPattern { regex, pattern: Ghost(pattern@) }),
        None => None,
    }
}


/// A line without the carriage return that ended it.
pub open spec fn strip_cr(line: Seq<char>) -> Seq<char> {
    if line.len() > 0 && line.last() == '\r' {
        line.drop_last()
    } else {
        line
    }
}

/// The lines ended within the first `n` characters, and the line begun after them.
pub open spec fn line_scan(s: Seq<char>, n: int) -> (Seq<Seq<char>>, Seq<char>)
    decreases n,
{
    if n <= 0 {
        (Seq::empty(), Seq::empty())
    } else if s[n - 1] == '\n' {
        (line_scan(s, n - 1).0.push(strip_cr(line_scan(s, n - 1).1)), Seq::empty())
    } else {
        (line_scan(s, n - 1).0, line_scan(s, n - 1).1.push(s[n - 1]))
    }
}

/// The lines of a text (`str::lines`): split at `\n` or `\r\n`, the last line ending being
/// optional.
pub open spec fn text_lines(s: Seq<char>) -> Seq<Seq<char>> {
    let st = line_scan(s, s.len() as int);
    if st.1.len() > 0 {
        st.0.push(st.1)
    } else {
        st.0
    }
}

/// The characters of each string.
pub open spec fn string_views(v: Seq<String>) -> Seq<Seq<char>> {
    v.map_values(|x: String| x@)
}

fn chars_to_string(chars: &Vec<char>) -> (r: String)
    ensures
        r@ == chars@,
{
    crate::text::string_from_chars(chars)
}

/// The lines of a text.
pub fn lines_of(text: &str) -> (lines: Vec<String>)
    ensures
        string_views(lines@) == text_lines(text@),
{
    let n = text.unicode_len();
    let mut lines: Vec<String> = Vec::new();
    let mut current: Vec<char> = Vec::new();
    let mut i: usize = 0;
    while i < n
        invariant
            n == text@.len(),
            i <= n,
            string_views(lines@) == line_scan(text@, i as int).0,
            current@ == line_scan(text@, i as int).1,
        decreases n - i,
    {
        let c = text.get_char(i);
        if c == '\n' {
            let len = current.len();
            if len > 0 && current[len - 1] == '\r' {
                current.pop();
            }
            let line = chars_to_string(&current);
            let ghost before = lines@;
            lines.push(line);
            assert(string_views(lines@) =~= string_views(before).push(line@));
            current = Vec::new();
        } else {
            current.push(c);
        }
        i = i + 1;
    }
    if current.len() > 0 {
        let line = chars_to_string(&current);
        let ghost before = lines@;
        lines.push(line);
        assert(string_views(lines@) =~= string_views(before).push(line@));
    }
    lines
}

/// A finding by its parts: repository, path, line number, tag and message.
pub open spec fn finding_view(f: Finding) -> (Seq<char>, Seq<char>, int, Seq<char>, Seq<char>) {
    (f.repository_id@, f.path@, f.line as int, f.tag@, f.message@)
}

/// The findings in the first `n` lines: for each line that the pattern matches, the
/// upper-cased tag and the trimmed message, numbered from one.
pub open spec fn found_lines(
    pattern: Seq<char>,
    lines: Seq<Seq<char>>,
    repository: Seq<char>,
    path: Seq<char>,
    n: int,
) -> Seq<(Seq<char>, Seq<char>, int, Seq<char>, Seq<char>)>
    decreases n,
{
    if n <= 0 {
        Seq::empty()
    } else {
        match regex_groups(pattern, lines[n - 1]) {
            Some(g) => found_lines(pattern, lines, repository, path, n - 1).push(
                (repository, path, n, unicode_upper(g.0), trim(g.1)),
            ),
            None => found_lines(pattern, lines, repository, path, n - 1),
        }
    }
}

/// The findings of one file, given its text.
pub fn search_file(
    content: &str,
    relative_path: &str,
    repository_id: &RepositoryId,
    pattern: &TagPattern,
) -> (r: Vec<Finding>)
    ensures
        r@.map_values(|f: Finding| finding_view(f)) == found_lines(
            pattern@,
            text_lines(content@),
            repository_id@,
            relative_path@,
            text_lines(content@).len() as int,
        ),
{
    let lines = lines_of(content);
    let ghost views = string_views(lines@);
    let mut r: Vec<Finding> = Vec::new();
    let mut i: usize = 0;
    while i < lines.len()
        invariant
            i <= lines@.len(),
            views == string_views(lines@),
            views == text_lines(content@),
            r@.map_values(|f: Finding| finding_view(f)) == found_lines(
                pattern@,
                views,
                repository_id@,
                relative_path@,
                i as int,
            ),
        decreases lines@.len() - i,
    {
        assert(views[i as int] == lines@[i as int]@);
        match capture_groups(pattern, lines[i].as_str()) {
            Some(groups) => {
                let tag = to_uppercase(groups.0.as_str());
                let message = owned(trim_str(groups.1.as_str()));
                let f = Finding {
                    repository_id: repository_id.clone(),
                    path: owned(relative_path),
                    line: i + 1,
                    tag,
                    message,
                };
                let ghost before = r@;
                r.push(f);
                assert(r@.map_values(|f: Finding| finding_view(f)) =~= before.map_values(
                    |f: Finding| finding_view(f),
                ).push(finding_view(f)));
            },
            None => {},
        }
        i = i + 1;
    }
    r
}

/// A file to scan: its path relative to the repository root and its text.
pub struct SourceFile {
    pub relative_path: String,
    pub content: String,
}

/// The findings of the first `n` files, file after file.
pub open spec fn scanned(
    pattern: Seq<char>,
    files: Seq<SourceFile>,
    repository: Seq<char>,
    n: int,
) -> Seq<(Seq<char>, Seq<char>, int, Seq<char>, Seq<char>)>
    decreases n,
{
    if n <= 0 {
        Seq::empty()
    } else {
        let f = files[n - 1];
        scanned(pattern, files, repository, n - 1) + found_lines(
            pattern,
            text_lines(f.content@),
            repository,
            f.relative_path@,
            text_lines(f.content@).len() as int,
        )
    }
}

/// The tags of the mappings, in order.
pub open spec fn mapping_tags(mappings: Seq<AnnotationTagMapping>) -> Seq<String> {
    mappings.map_values(|m: AnnotationTagMapping| m.tag)
}

/// The findings of a repository's files with the configured tags: none when there is no
/// tag or their pattern does not compile.
pub fn scan_files(
    files: &Vec<SourceFile>,
    repository_id: &RepositoryId,
    mappings: &Vec<AnnotationTagMapping>,
) -> (r: Vec<Finding>)
    ensures
        r@.map_values(|f: Finding| finding_view(f)) == if mappings@.len() == 0 || !regex_compiles(
            tag_pattern_text(mapping_tags(mappings@)),
        ) {
            Seq::empty()
        } else {
            scanned(
                tag_pattern_text(mapping_tags(mappings@)),
                files@,
                repository_id@,
                files@.len() as int,
            )
        },
{
    let mut tags: Vec<String> = Vec::new();
    let mut k: usize = 0;
    while k < mappings.len()
        invariant
            k <= mappings@.len(),
            tags@ == mapping_tags(mappings@.subrange(0, k as int)),
        decreases mappings@.len() - k,
    {
        tags.push(mappings[k].tag.clone());
        k = k + 1;
        assert(tags@ =~= mapping_tags(mappings@.subrange(0, k as int)));
    }
    assert(mappings@.subrange(0, mappings@.len() as int) =~= mappings@);
    let pattern = match build_regex(&tags) {
        Some(p) => p,
        None => {
            let r: Vec<Finding> = Vec::new();
            assert(r@.map_values(|f: Finding| finding_view(f)) =~= Seq::empty());
            return r;
        },
    };
    let mut r: Vec<Finding> = Vec::new();
    let mut i: usize = 0;
    while i < files.len()
        invariant
            i <= files@.len(),
            pattern@ == tag_pattern_text(mapping_tags(mappings@)),
            r@.map_values(|f: Finding| finding_view(f)) == scanned(
                pattern@,
                files@,
                repository_id@,
                i as int,
            ),
        decreases files@.len() - i,
    {
        let found = search_file(
            files[i].content.as_str(),
            files[i].relative_path.as_str(),
            repository_id,
            &pattern,
        );
        let ghost before = r@;
        let mut found = found;
        r.append(&mut found);
        assert(r@.map_values(|f: Finding| finding_view(f)) =~= before.map_values(
            |f: Finding| finding_view(f),
        ) + found_lines(
            pattern@,
            text_lines(files@[i as int].content@),
            repository_id@,
            files@[i as int].relative_path@,
            text_lines(files@[i as int].content@).len() as int,
        ));
        i = i + 1;
    }
    r
}


proof fn lemma_by_length_keeps(s: Seq<(Seq<char>, nat)>)
    ensures
        by_length(s).len() == s.len(),
        forall|k: int| 0 <= k < s.len() ==> by_length(s).contains(#[trigger] s[k]),
    decreases s.len(),
{
    if s.len() > 0 {
        let d = s.drop_last();
        lemma_by_length_keeps(d);
        let b = by_length(d);
        lemma_insert_by_length(b, s.last());
        let p = back_position(b, s.last());
        let r = b.insert(p, s.last());
        assert forall|k: int| 0 <= k < s.len() implies r.contains(#[trigger] s[k]) by {
            if k == s.len() - 1 {
                assert(r[p] == s[k]);
            } else {
                assert(d[k] == s[k]);
                assert(b.contains(d[k]));
                let q = choose|q: int| 0 <= q < b.len() && b[q] == d[k];
                if q < p {
                    assert(r[q] == s[k]);
                } else {
                    assert(r[q + 1] == s[k]);
                }
            }
        }
    }
}

/// The tag pattern recognises a tag only where a word begins: it opens with a group that is
/// the start of the line or one character that is not an ASCII letter, digit or `_` (so a
/// tag never matches inside a word such as "debug"), offers every configured tag, escaped,
/// as an alternative, and then asks for a colon or spaces and a message.
pub proof fn lemma_tag_pattern_guards_words(tags: Seq<String>)
    ensures
        exists|alts: Seq<Seq<char>>|
            #![trigger join_seqs(alts, "|"@)]
            tag_pattern_text(tags) == "(?i)(?:^|[^A-Za-z0-9_])("@ + join_seqs(alts, "|"@)
                + ")(?:\\s*:\\s*|\\s+)(\\S.*)"@ && alts.len() == tags.len() && forall|k: int|
                0 <= k < tags.len() ==> alts.contains(escaped(#[trigger] tags[k]@)),
{
    let e = escaped_tags(tags);
    let b = by_length(e);
    let alts = b.map_values(|x: (Seq<char>, nat)| x.0);
    lemma_by_length_keeps(e);
    assert forall|k: int| 0 <= k < tags.len() implies alts.contains(escaped(#[trigger] tags[k]@)) by {
        assert(e[k] == (escaped(tags[k]@), utf8_len(escaped(tags[k]@))));
        assert(b.contains(e[k]));
        let q = choose|q: int| 0 <= q < b.len() && b[q] == e[k];
        assert(alts[q] == escaped(tags[k]@));
    }
    assert(tag_pattern_text(tags) == "(?i)(?:^|[^A-Za-z0-9_])("@ + join_seqs(alts, "|"@)
        + ")(?:\\s*:\\s*|\\s+)(\\S.*)"@);
}

} // verus!
