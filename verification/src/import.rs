//! Rules of the import of the chinese-poetry data set.
//!
//! Source files are chosen by name (`poet.tang.*.json` → 唐 / 诗,
//! `poet.song.*.json` → 宋 / 诗, `ci.song.*.json` → 宋 / 词). Each poem is
//! converted from Traditional to Simplified Chinese, its lines are trimmed
//! and empty ones dropped, and it gets a de-duplication key: the FNV-1a hash
//! of title, author and content.

use vstd::prelude::*;
use vstd::string::StringSliceAdditionalSpecFns;
use vstd::string::StrSliceExecFns;
use crate::daily::{fnv1a, fnv1a_spec};
use crate::error::AppError;
use crate::json::{json_string_list, strings_view, to_json_list};
use crate::text::{is_blank, is_blank_spec, push_char, trim, trim_spec, has_prefix, strip_prefix};
use crate::text::{chars_of, char_from_ascii};

verus! {

broadcast use vstd::string::group_string_axioms;

#[verifier::external_type_specification]
#[verifier::external_body]
pub struct ExOpenCC(ferrous_opencc::OpenCC);

/// What OpenCC's built-in Traditional-to-Simplified configuration (`t2s`)
/// turns a text into.
pub uninterp spec fn t2s(s: Seq<char>) -> Seq<char>;

/// A Traditional-to-Simplified converter (OpenCC, built-in `t2s`
/// configuration, dictionaries embedded).
pub struct Converter {
    inner: ferrous_opencc::OpenCC,
}

/// Loads OpenCC with its built-in `t2s` configuration
/// (`OpenCC::from_config(BuiltinConfig::T2s)`); an error would come back as
/// its message. Loading succeeds: the configuration and its dictionaries are
/// compiled into ferrous-opencc (its build script embeds them under the
/// `t2s-conversion` feature, on by default), so the call reads nothing at
/// run time and its outcome is fixed when the crate is built.
#[verifier::external_body]
fn load_t2s() -> (r: Result<ferrous_opencc::OpenCC, String>)
    ensures
        r is Ok,
{
    ferrous_opencc::OpenCC::from_config(ferrous_opencc::config::BuiltinConfig::T2s).map_err(
        |e| e.to_string(),
    )
}

/// Converts a text with OpenCC (`OpenCC::convert`). The converter is always
/// the built-in `t2s` one (the only one a `Converter` is made from), so the
/// result is `t2s` of the text.
#[verifier::external_body]
fn opencc_convert(c: &Converter, s: &str) -> (r: String)
    ensures
        r@ == t2s(s@),
{
    c.inner.convert(s)
}

impl Converter {
    /// Loads the Traditional-to-Simplified converter. It always succeeds;
    /// a loading error would become an internal error carrying OpenCC's
    /// message.
    pub fn t2s() -> (r: Result<Converter, AppError>)
        ensures
            r is Ok,
    {
        match load_t2s() {
            Ok(inner) => Ok(Converter { inner }),
            Err(m) => Err(AppError::Internal(m)),
        }
    }

    /// The text in Simplified Chinese.
    pub fn convert(&self, s: &str) -> (r: String)
        ensures
            r@ == t2s(s@),
    {
        opencc_convert(self, s)
    }
}

/// A poem as the data set holds it.
#[derive(Debug)]
pub struct RawPoem {
    /// Title (older `poet.*` files).
    pub title: Option<String>,
    /// Tune name, standing for the title in newer `ci.song` files.
    pub rhythmic: Option<String>,
    /// Lines.
    pub paragraphs: Vec<String>,
    /// Author.
    pub author: String,
}

/// The optional string as characters.
pub open spec fn opt_chars(s: Option<String>) -> Option<Seq<char>> {
    match s {
        Some(x) => Some(x@),
        None => None,
    }
}

/// The title of a data-set poem: its title unless blank, else its tune
/// name unless blank, else none.
pub open spec fn effective_title_spec(title: Option<Seq<char>>, rhythmic: Option<Seq<char>>) -> Option<
    Seq<char>,
> {
    if title matches Some(t) && !is_blank_spec(t) {
        title
    } else if rhythmic matches Some(r) && !is_blank_spec(r) {
        rhythmic
    } else {
        None
    }
}

impl RawPoem {
    /// The title to import the poem under, if it has one.
    pub fn effective_title(&self) -> (r: Option<&str>)
        ensures
            match r {
                Some(t) => effective_title_spec(opt_chars(self.title), opt_chars(self.rhythmic))
                    == Some(t@),
                None => effective_title_spec(opt_chars(self.title), opt_chars(self.rhythmic)) is None,
            },
    {
        if let Some(t) = &self.title {
            if !is_blank(t.as_str()) {
                return Some(t.as_str());
            }
        }
        if let Some(r) = &self.rhythmic {
            if !is_blank(r.as_str()) {
                return Some(r.as_str());
            }
        }
        None
    }
}

/// The lines kept from a poem: each converted (after trimming) and trimmed
/// again, the empty ones dropped, in order.
pub open spec fn clean_lines_spec(ps: Seq<Seq<char>>) -> Seq<Seq<char>>
    decreases ps.len(),
{
    if ps.len() == 0 {
        Seq::<Seq<char>>::empty()
    } else {
        let rest = clean_lines_spec(ps.drop_last());
        let l = trim_spec(t2s(trim_spec(ps.last())));
        if l.len() > 0 {
            rest.push(l)
        } else {
            rest
        }
    }
}

/// Each source line is trimmed, converted to Simplified Chinese and
/// trimmed again; the lines left empty are dropped, the others kept in
/// their order.
pub proof fn lemma_clean_lines(ps: Seq<Seq<char>>)
    ensures
        clean_lines_spec(ps) == ps.map_values(|p: Seq<char>| trim_spec(t2s(trim_spec(p)))).filter(
            |l: Seq<char>| l.len() > 0,
        ),
    decreases ps.len(),
{
    reveal(Seq::filter);
    if ps.len() > 0 {
        lemma_clean_lines(ps.drop_last());
        let m = ps.map_values(|p: Seq<char>| trim_spec(t2s(trim_spec(p))));
        assert(m.drop_last() =~= ps.drop_last().map_values(
            |p: Seq<char>| trim_spec(t2s(trim_spec(p))),
        ));
        assert(m.last() == trim_spec(t2s(trim_spec(ps.last()))));
    }
}

/// Converts, trims and filters the lines of a poem.
pub fn clean_lines(conv: &Converter, paragraphs: &Vec<String>) -> (r: Vec<String>)
    ensures
        strings_view(r@) == clean_lines_spec(strings_view(paragraphs@)),
        strings_view(r@) == strings_view(paragraphs@).map_values(
            |p: Seq<char>| trim_spec(t2s(trim_spec(p))),
        ).filter(|l: Seq<char>| l.len() > 0),
{
    let mut out: Vec<String> = Vec::new();
    let n = paragraphs.len();
    let mut i: usize = 0;
    while i < n
        invariant
            n == paragraphs@.len(),
            i <= n,
            strings_view(out@) == clean_lines_spec(strings_view(paragraphs@.take(i as int))),
        decreases n - i,
    {
        let converted = conv.convert(trim(paragraphs[i].as_str()));
        let line = trim(converted.as_str());
        let ghost before = out@;
        proof {
            assert(strings_view(paragraphs@.take(i + 1)).drop_last() =~= strings_view(
                paragraphs@.take(i as int),
            ));
            assert(strings_view(paragraphs@.take(i + 1)).last() == paragraphs@[i as int]@);
        }
        if line.unicode_len() > 0 {
            out.push(line.to_string());
            assert(strings_view(out@) =~= strings_view(before).push(line@));
        }
        i = i + 1;
    }
    assert(paragraphs@.take(n as int) =~= paragraphs@);
    proof {
        lemma_clean_lines(strings_view(paragraphs@));
    }
    out
}

/// Lines joined with `sep` between them.
pub open spec fn join_spec(lines: Seq<Seq<char>>, sep: Seq<char>) -> Seq<char>
    decreases lines.len(),
{
    if lines.len() == 0 {
        Seq::<char>::empty()
    } else if lines.len() == 1 {
        lines[0]
    } else {
        join_spec(lines.drop_last(), sep) + sep + lines.last()
    }
}

/// The text that the de-duplication key hashes: `title|author|content`,
/// the lines of the content joined by newlines.
pub open spec fn key_text_spec(title: Seq<char>, author: Seq<char>, content: Seq<Seq<char>>) -> Seq<
    char,
> {
    title + seq!['|'] + author + seq!['|'] + join_spec(content, seq!['\n'])
}

/// The lower-case hexadecimal digit for a value below 16.
pub open spec fn hex_digit(d: u64) -> char {
    if d < 10 {
        (('0' as u64) + d) as char
    } else {
        (('a' as u64) + d - 10) as char
    }
}

/// The `i`-th of the 16 four-bit groups of `n`, from the most significant.
pub open spec fn nibble(n: u64, i: int) -> u64 {
    (n >> ((60 - 4 * i) as u64)) & 0xf
}

/// `n` in 16 lower-case hexadecimal digits, zero-padded (`{:016x}`).
pub open spec fn hex16_spec(n: u64) -> Seq<char> {
    Seq::new(16, |i: int| hex_digit(nibble(n, i)))
}

/// The de-duplication key of a poem: `fnv1a:` and the FNV-1a hash of its
/// key text in UTF-8, in 16 hexadecimal digits.
pub open spec fn ext_key_spec(title: Seq<char>, author: Seq<char>, content: Seq<Seq<char>>) -> Seq<
    char,
> {
    "fnv1a:"@ + hex16_spec(fnv1a_spec(vstd::utf8::encode_utf8(key_text_spec(title, author, content))))
}

/// `n` in 16 lower-case hexadecimal digits.
pub fn hex16(n: u64) -> (r: String)
    ensures
        r@ == hex16_spec(n),
{
    let mut r = String::new();
    let mut i: u64 = 0;
    while i < 16
        invariant
            i <= 16,
            r@ == hex16_spec(n).take(i as int),
        decreases 16 - i,
    {
        let shift: u64 = 60 - 4 * i;
        let d: u64 = (n >> shift) & 0xf;
        assert(d < 16) by (bit_vector)
            requires
                d == (n >> shift) & 0xf,
        ;
        let c = if d < 10 {
            char_from_ascii(48 + d as u8)
        } else {
            char_from_ascii(97 + (d - 10) as u8)
        };
        proof {
            assert(d == nibble(n, i as int));
            assert(c == hex_digit(d));
            assert(hex16_spec(n).take(i + 1) =~= hex16_spec(n).take(i as int).push(c));
        }
        push_char(&mut r, c);
        i = i + 1;
    }
    assert(hex16_spec(n).take(16) =~= hex16_spec(n));
    r
}

/// The key text of a poem: `title|author|content`.
pub fn key_text(title: &str, author: &str, content: &Vec<String>) -> (r: String)
    ensures
        r@ == key_text_spec(title@, author@, strings_view(content@)),
{
    let mut r = String::new();
    r.append(title);
    push_char(&mut r, '|');
    r.append(author);
    push_char(&mut r, '|');
    let ghost head = title@ + seq!['|'] + author@ + seq!['|'];
    assert(r@ =~= head);
    let n = content.len();
    let mut i: usize = 0;
    while i < n
        invariant
            n == content@.len(),
            i <= n,
            r@ == head + join_spec(strings_view(content@.take(i as int)), seq!['\n']),
        decreases n - i,
    {
        let ghost before = r@;
        proof {
            assert(strings_view(content@.take(i + 1)).drop_last() =~= strings_view(
                content@.take(i as int),
            ));
        }
        if i > 0 {
            push_char(&mut r, '\n');
        }
        r.append(content[i].as_str());
        proof {
            if i == 0 {
                assert(join_spec(strings_view(content@.take(0)), seq!['\n']) =~= Seq::<char>::empty());
                assert(join_spec(strings_view(content@.take(1)), seq!['\n']) == content@[0]@);
                assert(r@ =~= head + content@[0]@);
            } else {
                assert(r@ =~= head + (join_spec(strings_view(content@.take(i as int)), seq!['\n'])
                    + seq!['\n'] + content@[i as int]@));
            }
        }
        i = i + 1;
    }
    assert(content@.take(n as int) =~= content@);
    r
}

/// The de-duplication key of a poem.
pub fn ext_key(title: &str, author: &str, content: &Vec<String>) -> (r: String)
    ensures
        r@ == ext_key_spec(title@, author@, strings_view(content@)),
{
    let text = key_text(title, author, content);
    let h = fnv1a(text.as_str().as_bytes());
    let mut r = "fnv1a:".to_string();
    r.append(hex16(h).as_str());
    r
}

/// A poem ready to be stored.
#[derive(Debug)]
pub struct ImportRow {
    pub title: String,
    pub author: String,
    pub content: Vec<String>,
    /// The lines as JSON text, as they are stored.
    pub content_json: String,
    pub ext_key: String,
}

impl RawPoem {
    /// The row to store for this poem, or `None` when it has no title or no
    /// line is left. It never fails.
    pub fn to_row(&self, conv: &Converter) -> (r: Result<Option<ImportRow>, AppError>)
        ensures
            match effective_title_spec(opt_chars(self.title), opt_chars(self.rhythmic)) {
                None => r matches Ok(None),
                Some(t) => {
                    let content = clean_lines_spec(strings_view(self.paragraphs@));
                    if content.len() == 0 {
                        r matches Ok(None)
                    } else {
                        &&& r matches Ok(Some(row))
                        &&& row.title@ == t2s(t)
                        &&& row.author@ == t2s(self.author@)
                        &&& strings_view(row.content@) == content
                        &&& strings_view(row.content@) == strings_view(self.paragraphs@).map_values(
                            |p: Seq<char>| trim_spec(t2s(trim_spec(p))),
                        ).filter(|l: Seq<char>| l.len() > 0)
                        &&& row.content_json@ == json_string_list(content)
                        &&& row.ext_key@ == ext_key_spec(t2s(t), t2s(self.author@), content)
                    }
                },
            },
    {
        let raw_title = match self.effective_title() {
            Some(t) => t,
            None => return Ok(None),
        };
        let title = conv.convert(raw_title);
        let author = conv.convert(self.author.as_str());
        let content = clean_lines(conv, &self.paragraphs);
        if content.len() == 0 {
            return Ok(None);
        }
        let key = ext_key(title.as_str(), author.as_str(), &content);
        let content_json = match to_json_list(&content) {
            Ok(j) => j,
            Err(e) => return Err(e),
        };
        Ok(Some(ImportRow { title, author, content, content_json, ext_key: key }))
    }
}

/// The statement that stores one imported poem, unless a poem with the same
/// key is stored already; the values bind as title, author, dynasty, lines
/// (JSON), category and key, with no tags and no translation.
pub fn import_insert_sql() -> (r: &'static str)
    ensures
        r@ == "INSERT OR IGNORE INTO poems (title, author, dynasty, content, tags, translation, category, ext_key) VALUES (?, ?, ?, ?, '[]', NULL, ?, ?)"@,
{
    "INSERT OR IGNORE INTO poems (title, author, dynasty, content, tags, translation, category, ext_key) VALUES (?, ?, ?, ?, '[]', NULL, ?, ?)"
}

/// The statement that drops imported copies of curated poems: an imported
/// poem (with a key) goes where a curated one (without) has the same title
/// and author.
pub fn remove_seed_duplicates_sql() -> (r: &'static str)
    ensures
        r@ == "DELETE FROM poems WHERE ext_key IS NOT NULL AND EXISTS (SELECT 1 FROM poems s WHERE s.ext_key IS NULL AND s.title = poems.title AND s.author = poems.author)"@,
{
    "DELETE FROM poems WHERE ext_key IS NOT NULL AND EXISTS (SELECT 1 FROM poems s WHERE s.ext_key IS NULL AND s.title = poems.title AND s.author = poems.author)"
}

/// A data-set source: file-name prefix, dynasty and category.
pub struct Source {
    pub prefix: &'static str,
    pub dynasty: &'static str,
    pub category: &'static str,
}

/// The sources imported, in order.
pub fn sources() -> (r: Vec<Source>)
    ensures
        r@.len() == 3,
        r@[0].prefix@ == "poet.tang."@ && r@[0].dynasty@ == "唐"@ && r@[0].category@ == "诗"@,
        r@[1].prefix@ == "poet.song."@ && r@[1].dynasty@ == "宋"@ && r@[1].category@ == "诗"@,
        r@[2].prefix@ == "ci.song."@ && r@[2].dynasty@ == "宋"@ && r@[2].category@ == "词"@,
{
    let mut r: Vec<Source> = Vec::new();
    r.push(Source { prefix: "poet.tang.", dynasty: "唐", category: "诗" });
    r.push(Source { prefix: "poet.song.", dynasty: "宋", category: "诗" });
    r.push(Source { prefix: "ci.song.", dynasty: "宋", category: "词" });
    r
}

/// Whether `s` ends with `p`.
pub open spec fn has_suffix(s: Seq<char>, p: Seq<char>) -> bool {
    p.len() <= s.len() && s.skip(s.len() - p.len()) == p
}

/// Whether a file belongs to a source: its name starts with the source's
/// prefix and ends with `.json`.
pub fn is_source_file(name: &str, prefix: &str) -> (r: bool)
    ensures
        r == (has_prefix(name@, prefix@) && has_suffix(name@, ".json"@)),
{
    if strip_prefix(name, prefix).is_none() {
        return false;
    }
    let n = chars_of(name);
    let suffix = chars_of(".json");
    if suffix.len() > n.len() {
        return false;
    }
    let nl = n.len();
    let start = nl - suffix.len();
    let mut j: usize = 0;
    while j < suffix.len()
        invariant
            nl == n@.len(),
            n@ == name@,
            suffix@ == ".json"@,
            start + suffix@.len() == n@.len(),
            j <= suffix@.len(),
            forall|k: int| 0 <= k < j ==> n@[start + k] == suffix@[k],
        decreases suffix@.len() - j,
    {
        if n[start + j] != suffix[j] {
            assert(name@.skip(start as int)[j as int] != suffix@[j as int]);
            return false;
        }
        j = j + 1;
    }
    assert(name@.skip(start as int) =~= ".json"@);
    true
}

} // verus!
