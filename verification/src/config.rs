//! A list of tag paths as a build configuration gives it: checked, expanded
//! by the ancestors of every path, and sorted.

use vstd::prelude::*;
use vstd::hash_map::StringHashMap;
use vstd::string::{StrSliceExecFns, StringExecFns};
use vstd::utf8::encode_utf8;
use crate::dfs::{lemma_prefix_is, prefix_text};
use crate::order::{bytes_less, is_arrangement, key_table, keys_less, sorted_indices};
use crate::order_laws::lemma_siblings_by_key;
use crate::path::{
    as_ints, dot_positions, find_dots, lemma_bytes_determine_text, lemma_dot_positions, path_depth,
    prefix_before,
};

verus! {

/// What to do about a path that a configuration no longer lists.
#[derive(Debug, Clone, Copy, PartialEq, Eq, Structural)]
pub enum OnRemove {
    /// Refuse to go on.
    Error,
    /// Go on and mark the path as deprecated.
    Warn,
}

impl Default for OnRemove {
    fn default() -> (mode: Self)
        ensures
            mode == OnRemove::Error,
    {
        OnRemove::Error
    }
}

/// The part that a character can play in a path.
#[derive(Debug, Clone, Copy, PartialEq, Eq, Structural)]
pub enum CharClass {
    /// The separator of segments.
    Dot,
    /// A letter or an underscore: may stand anywhere in a segment.
    Word,
    /// A numeric character: may stand anywhere but at the start of a
    /// segment.
    Digit,
    /// Anything else: may not stand in a path.
    Other,
}

/// What is wrong with a path.
#[derive(Debug, Clone, Copy, PartialEq, Eq, Structural)]
pub enum PathFlaw {
    /// The path is empty.
    Empty,
    /// The path begins or ends with a dot.
    EdgeDot,
    /// Two dots stand side by side.
    DoubleDot,
    /// The segment that begins at character `at` begins with something
    /// other than a letter or an underscore.
    BadStart { at: usize },
    /// Character `at`, inside a segment, is no letter, numeric character or
    /// underscore.
    BadChar { at: usize },
}

/// Whether `c` has the Unicode property `Alphabetic`.
pub uninterp spec fn unicode_alphabetic(c: char) -> bool;

/// Whether `c` is in one of the Unicode general categories for numbers.
pub uninterp spec fn unicode_numeric(c: char) -> bool;

/// `char::is_alphabetic` of std: whether the character has the Unicode
/// property `Alphabetic`.  Nothing is proved of the answer; it is given the
/// name `unicode_alphabetic`.
#[verifier::external_body]
fn is_alphabetic(c: char) -> (yes: bool)
    ensures
        yes == unicode_alphabetic(c),
{
    c.is_alphabetic()
}

/// `char::is_numeric` of std: whether the character is in one of the
/// Unicode general categories for numbers.  Nothing is proved of the
/// answer; it is given the name `unicode_numeric`.
#[verifier::external_body]
fn is_numeric(c: char) -> (yes: bool)
    ensures
        yes == unicode_numeric(c),
{
    c.is_numeric()
}

/// The class of a character.
pub open spec fn class_of(c: char) -> CharClass {
    if c == '.' {
        CharClass::Dot
    } else if unicode_alphabetic(c) || c == '_' {
        CharClass::Word
    } else if unicode_numeric(c) {
        CharClass::Digit
    } else {
        CharClass::Other
    }
}

/// The classes of the characters of a text.
pub open spec fn classes_of(text: Seq<char>) -> Seq<CharClass> {
    text.map_values(|c: char| class_of(c))
}

/// Tells the class of a character.
pub fn classify(c: char) -> (class: CharClass)
    ensures
        class == class_of(c),
{
    if c == '.' {
        CharClass::Dot
    } else if c == '_' || is_alphabetic(c) {
        CharClass::Word
    } else if is_numeric(c) {
        CharClass::Digit
    } else {
        CharClass::Other
    }
}

/// Character `i` begins a segment.
pub open spec fn starts_segment(classes: Seq<CharClass>, i: int) -> bool {
    i == 0 || classes[i - 1] == CharClass::Dot
}

/// Character `i` may not stand where it stands.
pub open spec fn misplaced_at(classes: Seq<CharClass>, i: int) -> bool {
    classes[i] != CharClass::Dot && if starts_segment(classes, i) {
        classes[i] != CharClass::Word
    } else {
        classes[i] == CharClass::Other
    }
}

/// Characters `i` and `i + 1` are both dots.
pub open spec fn double_dot_at(classes: Seq<CharClass>, i: int) -> bool {
    classes[i] == CharClass::Dot && classes[i + 1] == CharClass::Dot
}

/// Some character is misplaced, and `i` is the first.
pub open spec fn first_misplaced(classes: Seq<CharClass>, i: int) -> bool {
    &&& 0 <= i < classes.len()
    &&& misplaced_at(classes, i)
    &&& forall|j: int| 0 <= j < i ==> !misplaced_at(classes, j)
}

/// What is wrong with a path whose characters have the given classes, if
/// anything is.  An empty path comes first, then a dot at either end, then
/// two dots side by side anywhere, then the first misplaced character.
pub open spec fn flaw_of(classes: Seq<CharClass>, flaw: Option<PathFlaw>) -> bool {
    if classes.len() == 0 {
        flaw == Some(PathFlaw::Empty)
    } else if classes[0] == CharClass::Dot || classes.last() == CharClass::Dot {
        flaw == Some(PathFlaw::EdgeDot)
    } else if exists|i: int| 0 <= i < classes.len() - 1 && double_dot_at(classes, i) {
        flaw == Some(PathFlaw::DoubleDot)
    } else if exists|i: int| 0 <= i < classes.len() && misplaced_at(classes, i) {
        match flaw {
            Some(PathFlaw::BadStart { at }) => first_misplaced(classes, at as int)
                && starts_segment(classes, at as int),
            Some(PathFlaw::BadChar { at }) => first_misplaced(classes, at as int)
                && !starts_segment(classes, at as int),
            _ => false,
        }
    } else {
        flaw is None
    }
}

/// Finds what is wrong with a path from the classes of its characters.
pub fn find_flaw(classes: &[CharClass]) -> (flaw: Option<PathFlaw>)
    ensures
        flaw_of(classes@, flaw),
{
    let n: usize = classes.len();
    if n == 0 {
        return Some(PathFlaw::Empty);
    }
    if classes[0] == CharClass::Dot || classes[n - 1] == CharClass::Dot {
        return Some(PathFlaw::EdgeDot);
    }
    let mut i: usize = 0;
    while i < n - 1
        invariant
            i <= n - 1,
            n == classes@.len(),
            n > 0,
            classes@[0] != CharClass::Dot,
            classes@.last() != CharClass::Dot,
            forall|j: int| 0 <= j < i ==> !double_dot_at(classes@, j),
        decreases n - i,
    {
        if classes[i] == CharClass::Dot && classes[i + 1] == CharClass::Dot {
            assert(double_dot_at(classes@, i as int));
            return Some(PathFlaw::DoubleDot);
        }
        i += 1;
    }
    let mut k: usize = 0;
    while k < n
        invariant
            k <= n,
            n == classes@.len(),
            n > 0,
            classes@[0] != CharClass::Dot,
            classes@.last() != CharClass::Dot,
            forall|j: int| 0 <= j < n - 1 ==> !double_dot_at(classes@, j),
            forall|j: int| 0 <= j < k ==> !misplaced_at(classes@, j),
        decreases n - k,
    {
        let class: CharClass = classes[k];
        if class != CharClass::Dot {
            let starts: bool = k == 0 || classes[k - 1] == CharClass::Dot;
            if starts && class != CharClass::Word {
                assert(first_misplaced(classes@, k as int));
                return Some(PathFlaw::BadStart { at: k });
            }
            if !starts && class == CharClass::Other {
                assert(first_misplaced(classes@, k as int));
                return Some(PathFlaw::BadChar { at: k });
            }
        }
        k += 1;
    }
    None
}

/// Tells the class of every character of a text.
pub fn classify_all(text: &str) -> (classes: Vec<CharClass>)
    ensures
        classes@ == classes_of(text@),
{
    let mut classes: Vec<CharClass> = Vec::new();
    for c in it: text.chars()
        invariant
            it.seq() == text@,
            classes@ == classes_of(text@.take(it.index())),
            it.index() == it.seq().len() ==> classes@ == classes_of(text@),
    {
        classes.push(classify(c));
        proof {
            let n = it.index() + 1;
            assert(text@.take(n) =~= text@.take(n - 1).push(c));
            assert(classes@ =~= classes_of(text@.take(n)));
            if n == text@.len() {
                assert(text@.take(n) =~= text@);
            }
        }
    }
    classes
}

/// Where the segment around character `at` begins.
pub open spec fn segment_begin(classes: Seq<CharClass>, at: int) -> int
    decreases at,
{
    if at <= 0 || classes[at - 1] == CharClass::Dot {
        at
    } else {
        segment_begin(classes, at - 1)
    }
}

/// Where the segment around character `at` ends.
pub open spec fn segment_finish(classes: Seq<CharClass>, at: int) -> int
    decreases classes.len() - at,
{
    if at >= classes.len() || classes[at] == CharClass::Dot {
        at
    } else {
        segment_finish(classes, at + 1)
    }
}

/// The segment of `path` around character `at`.
pub open spec fn segment_around(path: Seq<char>, at: int) -> Seq<char> {
    path.subrange(
        segment_begin(classes_of(path), at),
        segment_finish(classes_of(path), at),
    )
}

/// What a flaw of `path` says in words.
pub open spec fn flaw_text(path: Seq<char>, flaw: PathFlaw) -> Seq<char> {
    match flaw {
        PathFlaw::Empty => "Empty path not allowed"@,
        PathFlaw::EdgeDot => "Invalid path '"@ + path + "': cannot start or end with '.'"@,
        PathFlaw::DoubleDot => "Invalid path '"@ + path + "': contains '..'"@,
        PathFlaw::BadStart { at } => "Invalid path '"@ + path + "': segment '"@ + segment_around(
            path,
            at as int,
        ) + "' must start with letter or underscore"@,
        PathFlaw::BadChar { at } => "Invalid path '"@ + path + "': segment '"@ + segment_around(
            path,
            at as int,
        ) + "' contains invalid character '"@ + path.subrange(at as int, at + 1) + "'"@,
    }
}

/// The segment around character `at`.
fn segment_at<'a>(path: &'a str, classes: &Vec<CharClass>, at: usize) -> (segment: &'a str)
    requires
        classes@ == classes_of(path@),
        at < classes@.len(),
    ensures
        segment@ == segment_around(path@, at as int),
{
    let n: usize = classes.len();
    let mut begin: usize = at;
    while begin > 0 && classes[begin - 1] != CharClass::Dot
        invariant
            begin <= at,
            at < classes@.len(),
            segment_begin(classes@, begin as int) == segment_begin(classes@, at as int),
        decreases begin,
    {
        begin -= 1;
    }
    let mut finish: usize = at;
    while finish < n && classes[finish] != CharClass::Dot
        invariant
            at <= finish <= n,
            n == classes@.len(),
            segment_finish(classes@, finish as int) == segment_finish(classes@, at as int),
        decreases n - finish,
    {
        finish += 1;
    }
    assert(path@.len() == classes@.len());
    path.substring_char(begin, finish)
}

/// Describes a flaw of `path` in words.
pub fn describe_flaw(path: &str, classes: &Vec<CharClass>, flaw: PathFlaw) -> (text: String)
    requires
        classes@ == classes_of(path@),
        flaw_of(classes@, Some(flaw)),
    ensures
        text@ == flaw_text(path@, flaw),
{
    match flaw {
        PathFlaw::Empty => String::from_str("Empty path not allowed"),
        PathFlaw::EdgeDot => String::from_str("Invalid path '").concat(path).concat(
            "': cannot start or end with '.'",
        ),
        PathFlaw::DoubleDot => String::from_str("Invalid path '").concat(path).concat(
            "': contains '..'",
        ),
        PathFlaw::BadStart { at } => {
            assert(first_misplaced(classes@, at as int));
            let segment: &str = segment_at(path, classes, at);
            String::from_str("Invalid path '").concat(path).concat("': segment '").concat(
                segment,
            ).concat("' must start with letter or underscore")
        },
        PathFlaw::BadChar { at } => {
            assert(first_misplaced(classes@, at as int));
            let at_most: usize = classes.len();
            let segment: &str = segment_at(path, classes, at);
            assert(path@.len() == classes@.len());
            let found: &str = path.substring_char(at, at + 1);
            String::from_str("Invalid path '").concat(path).concat("': segment '").concat(
                segment,
            ).concat("' contains invalid character '").concat(found).concat("'")
        },
    }
}

/// What can go wrong with a configuration.
#[derive(Debug)]
pub enum TagsConfigError {
    /// The configuration could not be read.
    Io(String),
    /// The configuration is not of the expected form.
    Parse(String),
    /// The configuration says something that is not allowed.
    Validation(String),
}

impl TagsConfigError {
    /// The error in words.
    pub fn message(&self) -> (text: String)
        ensures
            text@ == match self {
                TagsConfigError::Io(m) => "IO error: "@ + m@,
                TagsConfigError::Parse(m) => "Parse error: "@ + m@,
                TagsConfigError::Validation(m) => "Validation error: "@ + m@,
            },
    {
        match self {
            TagsConfigError::Io(m) => String::from_str("IO error: ").concat(m.as_str()),
            TagsConfigError::Parse(m) => String::from_str("Parse error: ").concat(m.as_str()),
            TagsConfigError::Validation(m) => String::from_str("Validation error: ").concat(
                m.as_str(),
            ),
        }
    }
}

/// A path is valid when each of its segments is an identifier: a letter or
/// an underscore, followed by letters, numeric characters and underscores.
pub open spec fn path_valid(path: Seq<char>) -> bool {
    flaw_of(classes_of(path), None)
}

/// What `validate_path` answers for a path.
pub open spec fn path_answer(path: Seq<char>, r: Result<(), TagsConfigError>) -> bool {
    match r {
        Ok(_) => path_valid(path),
        Err(TagsConfigError::Validation(text)) => exists|flaw: PathFlaw|
            flaw_of(classes_of(path), Some(flaw)) && text@ == #[trigger] flaw_text(path, flaw),
        Err(_) => false,
    }
}

/// Checks one path.
pub fn validate_path(path: &str) -> (r: Result<(), TagsConfigError>)
    ensures
        path_answer(path@, r),
        r is Ok <==> path_valid(path@),
{
    let classes: Vec<CharClass> = classify_all(path);
    match find_flaw(classes.as_slice()) {
        Some(flaw) => {
            let text: String = describe_flaw(path, &classes, flaw);
            proof {
                if flaw_of(classes@, None) {
                    lemma_one_flaw(classes@, Some(flaw), None);
                }
            }
            Err(TagsConfigError::Validation(text))
        },
        None => Ok(()),
    }
}

/// A path is flawless or has one flaw, not both and not two.
pub proof fn lemma_one_flaw(classes: Seq<CharClass>, a: Option<PathFlaw>, b: Option<PathFlaw>)
    requires
        flaw_of(classes, a),
        flaw_of(classes, b),
    ensures
        a == b,
{
    if a is Some && b is Some {
        match (a->0, b->0) {
            (PathFlaw::BadStart { at: x }, PathFlaw::BadStart { at: y }) => {
                if x < y {
                    assert(!misplaced_at(classes, x as int));
                }
                if y < x {
                    assert(!misplaced_at(classes, y as int));
                }
            },
            (PathFlaw::BadChar { at: x }, PathFlaw::BadChar { at: y }) => {
                if x < y {
                    assert(!misplaced_at(classes, x as int));
                }
                if y < x {
                    assert(!misplaced_at(classes, y as int));
                }
            },
            (PathFlaw::BadStart { at: x }, PathFlaw::BadChar { at: y }) => {
                if x < y {
                    assert(!misplaced_at(classes, x as int));
                }
                if y < x {
                    assert(!misplaced_at(classes, y as int));
                }
            },
            (PathFlaw::BadChar { at: x }, PathFlaw::BadStart { at: y }) => {
                if x < y {
                    assert(!misplaced_at(classes, x as int));
                }
                if y < x {
                    assert(!misplaced_at(classes, y as int));
                }
            },
            _ => {},
        }
    }
}

/// One tag of a configuration.
#[derive(Debug, Clone, PartialEq, Eq)]
pub struct TagEntry {
    /// The full path.
    pub path: String,
    /// The number of dots in the path, modulo 256.
    pub depth: u8,
    /// The path of the parent; none for a root.
    pub parent: Option<String>,
}

/// One tag as text.
pub struct TagEntryView {
    pub path: Seq<char>,
    pub depth: u8,
    pub parent: Option<Seq<char>>,
}

impl View for TagEntry {
    type V = TagEntryView;

    open spec fn view(&self) -> TagEntryView {
        TagEntryView {
            path: self.path@,
            depth: self.depth,
            parent: match self.parent {
                Some(p) => Some(p@),
                None => None,
            },
        }
    }
}

/// The tags as text.
pub open spec fn tags_view(entries: Seq<TagEntry>) -> Seq<TagEntryView> {
    entries.map_values(|e: TagEntry| e@)
}

/// The tag for prefix `k` of `path`.
pub open spec fn tag_entry(path: Seq<char>, k: int) -> TagEntryView {
    TagEntryView {
        path: prefix_text(path, k),
        depth: (k % 256) as u8,
        parent: if k == 0 {
            None
        } else {
            Some(prefix_text(path, k - 1))
        },
    }
}

/// Some tag has the path `p`.
pub open spec fn has_tag(entries: Seq<TagEntryView>, p: Seq<char>) -> bool {
    exists|i: int| 0 <= i < entries.len() && (#[trigger] entries[i]).path == p
}

/// The tag is the tag of `path` itself or of one of its ancestors.
pub open spec fn is_tag_of(entry: TagEntryView, path: Seq<char>) -> bool {
    exists|k: int| 0 <= k <= path_depth(path) && entry == #[trigger] tag_entry(path, k)
}

/// The tag is the tag of one of the first `upto` paths or of an ancestor
/// of one.
pub open spec fn is_tag_among(entry: TagEntryView, paths: Seq<Seq<char>>, upto: int) -> bool {
    exists|p: int| 0 <= p < upto && #[trigger] is_tag_of(entry, paths[p])
}

/// Every tag comes from one of the first `upto` paths.
pub open spec fn tags_from(entries: Seq<TagEntryView>, paths: Seq<Seq<char>>, upto: int) -> bool {
    forall|i: int| 0 <= i < entries.len() ==> is_tag_among(#[trigger] entries[i], paths, upto)
}

/// The tags are the expansion of the paths: every path and every ancestor
/// of a path is a tag, nothing else is, and the tags stand in the
/// byte-wise order of their paths, none twice.
pub open spec fn is_expansion(entries: Seq<TagEntryView>, paths: Seq<Seq<char>>) -> bool {
    &&& tags_from(entries, paths, paths.len() as int)
    &&& forall|p: int, k: int|
        0 <= p < paths.len() && 0 <= k <= path_depth(paths[p]) ==> has_tag(
            entries,
            #[trigger] prefix_text(paths[p], k),
        )
    &&& forall|i: int, j: int|
        0 <= i < j < entries.len() ==> bytes_less(
            encode_utf8((#[trigger] entries[i]).path),
            encode_utf8((#[trigger] entries[j]).path),
        )
}

/// The texts of a list of paths.
pub open spec fn path_texts(paths: Seq<String>) -> Seq<Seq<char>> {
    paths.map_values(|p: String| p@)
}

/// What `expand_paths` answers for a list of paths.
pub open spec fn expansion_outcome(
    paths: Seq<Seq<char>>,
    r: Result<Vec<TagEntry>, TagsConfigError>,
) -> bool {
    match r {
        Ok(entries) => {
            &&& forall|p: int| 0 <= p < paths.len() ==> path_valid(#[trigger] paths[p])
            &&& is_expansion(tags_view(entries@), paths)
        },
        Err(e) => exists|p: int|
            0 <= p < paths.len() && (forall|q: int| 0 <= q < p ==> path_valid(#[trigger] paths[q]))
                && #[trigger] path_answer(paths[p], Err(e)),
    }
}

/// A copy of a tag.
fn copy_tag(entry: &TagEntry) -> (copy: TagEntry)
    ensures
        copy@ == entry@,
{
    TagEntry {
        path: entry.path.clone(),
        depth: entry.depth,
        parent: match &entry.parent {
            Some(p) => Some(p.clone()),
            None => None,
        },
    }
}

/// `seen` knows the paths of the tags, and no two tags share a path.
pub open spec fn tags_indexed(entries: Seq<TagEntry>, seen: Map<Seq<char>, usize>) -> bool {
    &&& forall|t: Seq<char>| seen.contains_key(t) <==> has_tag(tags_view(entries), t)
    &&& forall|i: int, j: int|
        0 <= i < j < entries.len() ==> (#[trigger] entries[i]).path@ != (#[trigger] entries[j]).path@
}

/// Adds the tag of prefix `k` of `path`, unless it is there.
fn add_tag(
    prefix: &str,
    above: Option<&str>,
    k: usize,
    entries: &mut Vec<TagEntry>,
    seen: &mut StringHashMap<usize>,
    Ghost(path): Ghost<Seq<char>>,
)
    requires
        tags_indexed(old(entries)@, old(seen)@),
        0 <= k <= path_depth(path),
        prefix@ == prefix_text(path, k as int),
        k == 0 ==> above is None,
        k > 0 ==> above is Some && above->0@ == prefix_text(path, k - 1),
    ensures
        tags_indexed(final(entries)@, final(seen)@),
        final(entries)@.len() >= old(entries)@.len(),
        final(entries)@.take(old(entries)@.len() as int) == old(entries)@,
        forall|i: int|
            old(entries)@.len() <= i < final(entries)@.len() ==> (#[trigger] final(entries)@[i])@
                == tag_entry(path, k as int),
        forall|t: Seq<char>|
            has_tag(tags_view(old(entries)@), t) ==> has_tag(tags_view(final(entries)@), t),
        has_tag(tags_view(final(entries)@), prefix@),
{
    let ghost before = entries@;
    if !seen.contains_key(prefix) {
        let parent: Option<String> = match above {
            Some(a) => Some(a.to_owned()),
            None => None,
        };
        let at: usize = entries.len();
        seen.insert(prefix.to_owned(), at);
        entries.push(TagEntry { path: prefix.to_owned(), depth: (k % 256) as u8, parent });
        proof {
            let after = entries@;
            let last = after.len() - 1;
            assert(after[last]@ == tag_entry(path, k as int));
            assert(after.take(before.len() as int) =~= before);
            assert forall|t: Seq<char>| seen@.contains_key(t) <==> has_tag(
                tags_view(after),
                t,
            ) by {
                if has_tag(tags_view(after), t) {
                    let i = choose|i: int|
                        0 <= i < tags_view(after).len() && (#[trigger] tags_view(after)[i]).path
                            == t;
                    if i < last {
                        assert(tags_view(before)[i].path == t);
                    }
                }
                if has_tag(tags_view(before), t) {
                    let i = choose|i: int|
                        0 <= i < tags_view(before).len() && (#[trigger] tags_view(before)[i]).path
                            == t;
                    assert(tags_view(after)[i].path == t);
                }
                if t == prefix@ {
                    assert(tags_view(after)[last].path == t);
                }
            }
            assert forall|i: int, j: int| 0 <= i < j < after.len() implies (
            #[trigger] after[i]).path@ != (#[trigger] after[j]).path@ by {
                assert(after[i] == before[i]);
                if j == last {
                    assert(tags_view(before)[i].path == before[i].path@);
                } else {
                    assert(after[j] == before[j]);
                }
            }
            assert forall|t: Seq<char>| has_tag(tags_view(before), t) implies has_tag(
                tags_view(after),
                t,
            ) by {
                assert(seen@.contains_key(t));
            }
            assert(tags_view(after)[last].path == prefix@);
        }
    } else {
        proof {
            assert(entries@.take(before.len() as int) =~= before);
        }
    }
}

/// Adds to `entries` the tags of `path` and of its ancestors that are not
/// there yet.
fn add_with_ancestors(path: &str, entries: &mut Vec<TagEntry>, seen: &mut StringHashMap<usize>)
    requires
        tags_indexed(old(entries)@, old(seen)@),
    ensures
        tags_indexed(final(entries)@, final(seen)@),
        final(entries)@.len() >= old(entries)@.len(),
        final(entries)@.take(old(entries)@.len() as int) == old(entries)@,
        forall|i: int|
            old(entries)@.len() <= i < final(entries)@.len() ==> is_tag_of(
                (#[trigger] final(entries)@[i])@,
                path@,
            ),
        forall|t: Seq<char>|
            has_tag(tags_view(old(entries)@), t) ==> has_tag(tags_view(final(entries)@), t),
        forall|k: int|
            0 <= k <= path_depth(path@) ==> has_tag(
                tags_view(final(entries)@),
                #[trigger] prefix_text(path@, k),
            ),
{
    let ghost start = entries@;
    let bytes: &[u8] = path.as_bytes();
    let dots: Vec<usize> = find_dots(bytes);
    let ghost positions = dot_positions(bytes@);
    let depth: usize = dots.len();
    proof {
        lemma_dot_positions(bytes@);
    }
    let mut above: Option<&str> = None;
    let mut k: usize = 0;
    while k < depth
        invariant
            k <= depth,
            depth == dots@.len(),
            depth == path_depth(path@),
            bytes@ == encode_utf8(path@),
            as_ints(dots@) == positions,
            positions == dot_positions(bytes@),
            forall|q: int|
                0 <= q < positions.len() ==> 0 <= #[trigger] positions[q] < bytes@.len()
                    && bytes@[positions[q]] == 0x2e,
            tags_indexed(entries@, seen@),
            entries@.len() >= start.len(),
            entries@.take(start.len() as int) == start,
            k == 0 ==> above is None,
            k > 0 ==> above is Some && above->0@ == prefix_text(path@, k - 1),
            forall|i: int|
                start.len() <= i < entries@.len() ==> is_tag_of((#[trigger] entries@[i])@, path@),
            forall|t: Seq<char>| has_tag(tags_view(start), t) ==> has_tag(tags_view(entries@), t),
            forall|q: int|
                0 <= q < k ==> has_tag(tags_view(entries@), #[trigger] prefix_text(path@, q)),
        decreases depth - k,
    {
        let end: usize = dots[k];
        assert(end as int == positions[k as int]) by {
            assert(as_ints(dots@)[k as int] == dots@[k as int] as int);
        }
        let prefix: &str = prefix_before(path, end);
        proof {
            lemma_prefix_is(path@, k as int, prefix@);
        }
        let ghost before = entries@;
        add_tag(prefix, above, k, entries, seen, Ghost(path@));
        proof {
            lemma_grown(start, before, entries@, path@, k as int);
        }
        above = Some(prefix);
        k += 1;
    }
    proof {
        assert(bytes@.take(bytes@.len() as int) =~= bytes@);
        lemma_prefix_is(path@, depth as int, path@);
    }
    let ghost before = entries@;
    add_tag(path, above, depth, entries, seen, Ghost(path@));
    proof {
        lemma_grown(start, before, entries@, path@, depth as int);
    }
}

/// What holds of the tags after one more was added for `path`.
proof fn lemma_grown(
    start: Seq<TagEntry>,
    before: Seq<TagEntry>,
    after: Seq<TagEntry>,
    path: Seq<char>,
    k: int,
)
    requires
        0 <= k <= path_depth(path),
        before.len() >= start.len(),
        before.take(start.len() as int) == start,
        after.len() >= before.len(),
        after.take(before.len() as int) == before,
        forall|i: int| start.len() <= i < before.len() ==> is_tag_of((#[trigger] before[i])@, path),
        forall|i: int|
            before.len() <= i < after.len() ==> (#[trigger] after[i])@ == tag_entry(path, k),
    ensures
        after.take(start.len() as int) == start,
        forall|i: int| start.len() <= i < after.len() ==> is_tag_of((#[trigger] after[i])@, path),
{
    assert(after.take(start.len() as int) =~= after.take(before.len() as int).take(
        start.len() as int,
    ));
    assert forall|i: int| start.len() <= i < after.len() implies is_tag_of(
        (#[trigger] after[i])@,
        path,
    ) by {
        if i < before.len() {
            assert(after[i] == after.take(before.len() as int)[i]);
        } else {
            assert(after[i]@ == tag_entry(path, k));
        }
    }
}

/// Checks every path and lists the tags of the paths and of all their
/// ancestors, each once, in the byte-wise order of their paths.  The first
/// path at fault decides the error.
pub fn expand_paths(paths: &[String]) -> (r: Result<Vec<TagEntry>, TagsConfigError>)
    ensures
        expansion_outcome(path_texts(paths@), r),
{
    let ghost texts = path_texts(paths@);
    let mut entries: Vec<TagEntry> = Vec::new();
    let mut seen: StringHashMap<usize> = StringHashMap::new();
    let mut p: usize = 0;
    while p < paths.len()
        invariant
            p <= paths@.len(),
            texts == path_texts(paths@),
            tags_indexed(entries@, seen@),
            forall|q: int| 0 <= q < p ==> path_valid(#[trigger] texts[q]),
            tags_from(tags_view(entries@), texts, p as int),
            forall|q: int, k: int|
                0 <= q < p && 0 <= k <= path_depth(texts[q]) ==> has_tag(
                    tags_view(entries@),
                    #[trigger] prefix_text(texts[q], k),
                ),
        decreases paths@.len() - p,
    {
        let path: &str = paths[p].as_str();
        assert(path@ == texts[p as int]);
        match validate_path(path) {
            Ok(_) => {},
            Err(e) => {
                assert(path_answer(texts[p as int], Err(e)));
                return Err(e);
            },
        }
        let ghost before = entries@;
        add_with_ancestors(path, &mut entries, &mut seen);
        proof {
            let after = entries@;
            assert forall|i: int| 0 <= i < tags_view(after).len() implies is_tag_among(
                #[trigger] tags_view(after)[i],
                texts,
                p + 1,
            ) by {
                if i < before.len() {
                    assert(after[i] == after.take(before.len() as int)[i]);
                    assert(is_tag_among(tags_view(before)[i], texts, p as int));
                    let w = choose|w: int|
                        0 <= w < p && #[trigger] is_tag_of(tags_view(before)[i], texts[w]);
                    assert(is_tag_of(tags_view(after)[i], texts[w]));
                } else {
                    assert(is_tag_of(after[i]@, texts[p as int]));
                }
            }
        }
        p += 1;
    }
    let mut keys: Vec<Vec<&[u8]>> = Vec::new();
    let mut i: usize = 0;
    while i < entries.len()
        invariant
            i <= entries@.len(),
            keys@.len() == i,
            forall|j: int|
                0 <= j < i ==> #[trigger] key_table(keys@)[j] == seq![
                    encode_utf8(entries@[j].path@),
                ],
        decreases entries@.len() - i,
    {
        let ghost old_keys = keys@;
        let mut key: Vec<&[u8]> = Vec::new();
        key.push(entries[i].path.as_str().as_bytes());
        keys.push(key);
        proof {
            assert forall|j: int| 0 <= j < i + 1 implies #[trigger] key_table(keys@)[j] == seq![
                encode_utf8(entries@[j].path@),
            ] by {
                if j < i {
                    assert(key_table(old_keys)[j] == seq![encode_utf8(entries@[j].path@)]);
                    assert(keys@[j] == old_keys[j]);
                } else {
                    assert(crate::hash::segments_view(keys@[j]@) =~= seq![
                        encode_utf8(entries@[j].path@),
                    ]);
                }
            }
        }
        i += 1;
    }
    let order: Vec<usize> = sorted_indices(&keys);
    let mut sorted: Vec<TagEntry> = Vec::new();
    let mut t: usize = 0;
    while t < order.len()
        invariant
            t <= order@.len(),
            is_arrangement(order@, entries@.len() as int),
            sorted@.len() == t,
            forall|q: int| 0 <= q < t ==> (#[trigger] sorted@[q])@ == entries@[order@[q] as int]@,
        decreases order@.len() - t,
    {
        let at: usize = order[t];
        assert(at < entries@.len());
        sorted.push(copy_tag(&entries[at]));
        t += 1;
    }
    proof {
        let sv = tags_view(sorted@);
        let ev = tags_view(entries@);
        let table = key_table(keys@);
        assert forall|q: int| 0 <= q < sv.len() implies is_tag_among(
            #[trigger] sv[q],
            texts,
            texts.len() as int,
        ) by {
            assert(sv[q] == ev[order@[q] as int]);
        }
        assert forall|w: int, k: int|
            0 <= w < texts.len() && 0 <= k <= path_depth(texts[w]) implies has_tag(
            sv,
            #[trigger] prefix_text(texts[w], k),
        ) by {
            let target = prefix_text(texts[w], k);
            assert(has_tag(ev, target));
            let j = choose|j: int| 0 <= j < ev.len() && (#[trigger] ev[j]).path == target;
            assert(order@.contains(j as usize));
            let q = choose|q: int| 0 <= q < order@.len() && order@[q] == j as usize;
            assert(sv[q].path == target);
        }
        assert forall|a: int, b: int| 0 <= a < b < sv.len() implies bytes_less(
            encode_utf8((#[trigger] sv[a]).path),
            encode_utf8((#[trigger] sv[b]).path),
        ) by {
            let x = order@[a] as int;
            let y = order@[b] as int;
            assert(x != y);
            let kx = encode_utf8(entries@[x].path@);
            let ky = encode_utf8(entries@[y].path@);
            assert(table[x] == seq![kx]);
            assert(table[y] == seq![ky]);
            assert(!keys_less(table[y], table[x]));
            assert(seq![kx] =~= Seq::<Seq<u8>>::empty().push(kx));
            assert(seq![ky] =~= Seq::<Seq<u8>>::empty().push(ky));
            lemma_siblings_by_key(Seq::empty(), kx, ky);
            lemma_siblings_by_key(Seq::empty(), ky, kx);
            crate::order::lemma_bytes_total(kx, ky);
            if kx == ky {
                lemma_bytes_determine_text(entries@[x].path@, entries@[y].path@);
                if x < y {
                    assert(entries@[x].path@ != entries@[y].path@);
                } else {
                    assert(entries@[y].path@ != entries@[x].path@);
                }
            }
            assert(sv[a].path == entries@[x].path@);
            assert(sv[b].path == entries@[y].path@);
        }
    }
    Ok(sorted)
}

/// A path that stands for another: `from` is the old path, `to` the path
/// that takes its place.
#[derive(Debug, Clone, PartialEq, Eq)]
pub struct RedirectEntry {
    pub from: String,
    pub to: String,
}

/// A redirect as text.
pub struct RedirectView {
    pub from: Seq<char>,
    pub to: Seq<char>,
}

impl View for RedirectEntry {
    type V = RedirectView;

    open spec fn view(&self) -> RedirectView {
        RedirectView { from: self.from@, to: self.to@ }
    }
}

/// The redirects as text.
pub open spec fn redirects_view(redirects: Seq<RedirectEntry>) -> Seq<RedirectView> {
    redirects.map_values(|r: RedirectEntry| r@)
}

/// The pairs of old and new path as text.
pub open spec fn pairs_view(pairs: Seq<(String, String)>) -> Seq<RedirectView> {
    pairs.map_values(|p: (String, String)| RedirectView { from: p.0@, to: p.1@ })
}

/// A checked configuration of tags.
#[derive(Debug, Clone)]
pub struct TagsConfig {
    /// Name of the module that is generated for the tags.
    pub module_name: String,
    /// What to do about paths that are no longer listed.
    pub on_remove: OnRemove,
    entries: Vec<TagEntry>,
    redirects: Vec<RedirectEntry>,
}

/// What a configuration holds.
pub struct ConfigView {
    pub module_name: Seq<char>,
    pub on_remove: OnRemove,
    pub entries: Seq<TagEntryView>,
    pub redirects: Seq<RedirectView>,
}

impl View for TagsConfig {
    type V = ConfigView;

    closed spec fn view(&self) -> ConfigView {
        ConfigView {
            module_name: self.module_name@,
            on_remove: self.on_remove,
            entries: tags_view(self.entries@),
            redirects: redirects_view(self.redirects@),
        }
    }
}

/// The mode that a configuration asks for: `error` where it says nothing.
pub open spec fn mode_of(on_remove: Option<Seq<char>>) -> Option<OnRemove> {
    match on_remove {
        None => Some(OnRemove::Error),
        Some(word) => if word == "error"@ {
            Some(OnRemove::Error)
        } else if word == "warn"@ {
            Some(OnRemove::Warn)
        } else {
            None
        },
    }
}

/// The name of the module: `Tags` where the configuration gives none.
pub open spec fn name_of(module_name: Option<Seq<char>>) -> Seq<char> {
    match module_name {
        Some(name) => name,
        None => "Tags"@,
    }
}

/// The error is a validation error with the given text.
pub open spec fn says(e: TagsConfigError, text: Seq<char>) -> bool {
    match e {
        TagsConfigError::Validation(t) => t@ == text,
        _ => false,
    }
}

/// Both paths of the redirect are valid and its target is a tag.
pub open spec fn redirect_sound(redirect: RedirectView, entries: Seq<TagEntryView>) -> bool {
    path_valid(redirect.from) && path_valid(redirect.to) && has_tag(entries, redirect.to)
}

/// What is said of a redirect that is not sound: the flaw of its old path,
/// else the flaw of its new path, else that its target is no tag.
pub open spec fn redirect_refused(
    redirect: RedirectView,
    entries: Seq<TagEntryView>,
    e: TagsConfigError,
) -> bool {
    if !path_valid(redirect.from) {
        path_answer(redirect.from, Err(e))
    } else if !path_valid(redirect.to) {
        path_answer(redirect.to, Err(e))
    } else {
        !has_tag(entries, redirect.to) && says(
            e,
            "Redirect target '"@ + redirect.to + "' not found in [tags].paths"@,
        )
    }
}

/// `sorted` holds the redirects of `given` in the order that `order` gives,
/// each once.
pub open spec fn arranged_as(
    sorted: Seq<RedirectView>,
    given: Seq<RedirectView>,
    order: Seq<usize>,
) -> bool {
    &&& is_arrangement(order, given.len() as int)
    &&& sorted.len() == order.len()
    &&& forall|k: int| 0 <= k < sorted.len() ==> #[trigger] sorted[k] == given[order[k] as int]
}

/// `sorted` holds the redirects of `given`, each once, in the byte-wise
/// order of their old paths.
pub open spec fn redirects_sorted(sorted: Seq<RedirectView>, given: Seq<RedirectView>) -> bool {
    &&& exists|order: Seq<usize>| #[trigger] arranged_as(sorted, given, order)
    &&& forall|a: int, b: int|
        0 <= a < b < sorted.len() ==> !bytes_less(
            encode_utf8((#[trigger] sorted[b]).from),
            encode_utf8((#[trigger] sorted[a]).from),
        )
}

/// What `TagsConfig::from_raw` answers.
///
/// The mode is checked first, then the paths, then the redirects in the
/// order given; the first fault decides the error.
pub open spec fn config_outcome(
    module_name: Option<Seq<char>>,
    on_remove: Option<Seq<char>>,
    paths: Seq<Seq<char>>,
    redirects: Seq<RedirectView>,
    r: Result<ConfigView, TagsConfigError>,
) -> bool {
    match r {
        Ok(config) => {
            &&& config.module_name == name_of(module_name)
            &&& mode_of(on_remove) == Some(config.on_remove)
            &&& forall|p: int| 0 <= p < paths.len() ==> path_valid(#[trigger] paths[p])
            &&& is_expansion(config.entries, paths)
            &&& forall|i: int|
                0 <= i < redirects.len() ==> redirect_sound(#[trigger] redirects[i], config.entries)
            &&& redirects_sorted(config.redirects, redirects)
        },
        Err(e) => {
            if mode_of(on_remove) is None {
                says(
                    e,
                    "Invalid on_remove value '"@ + on_remove->0 + "': expected 'error' or 'warn'"@,
                )
            } else if exists|p: int| 0 <= p < paths.len() && !path_valid(#[trigger] paths[p]) {
                exists|p: int|
                    0 <= p < paths.len() && (forall|q: int|
                        0 <= q < p ==> path_valid(#[trigger] paths[q])) && #[trigger] path_answer(
                        paths[p],
                        Err(e),
                    )
            } else {
                exists|entries: Seq<TagEntryView>, i: int|
                    is_expansion(entries, paths) && 0 <= i < redirects.len() && (forall|j: int|
                        0 <= j < i ==> redirect_sound(#[trigger] redirects[j], entries))
                        && #[trigger] redirect_refused(redirects[i], entries, e)
            }
        },
    }
}

/// The view of a result that holds a configuration.
pub open spec fn config_result_view(r: Result<TagsConfig, TagsConfigError>) -> Result<
    ConfigView,
    TagsConfigError,
> {
    match r {
        Ok(config) => Ok(config@),
        Err(e) => Err(e),
    }
}

/// Whether some tag has the path `path`.
fn tag_exists(entries: &Vec<TagEntry>, path: &str) -> (found: bool)
    ensures
        found == has_tag(tags_view(entries@), path@),
{
    let mut i: usize = 0;
    while i < entries.len()
        invariant
            i <= entries@.len(),
            forall|j: int| 0 <= j < i ==> (#[trigger] tags_view(entries@)[j]).path != path@,
        decreases entries@.len() - i,
    {
        if crate::meta::same_text(entries[i].path.as_str(), path) {
            assert(tags_view(entries@)[i as int].path == path@);
            return true;
        }
        i += 1;
    }
    false
}

/// Sorts redirects by their old paths.
fn sort_redirects(given: &Vec<(String, String)>) -> (sorted: Vec<RedirectEntry>)
    ensures
        redirects_sorted(redirects_view(sorted@), pairs_view(given@)),
{
    let ghost gv = pairs_view(given@);
    let mut keys: Vec<Vec<&[u8]>> = Vec::new();
    let mut i: usize = 0;
    while i < given.len()
        invariant
            i <= given@.len(),
            gv == pairs_view(given@),
            keys@.len() == i,
            forall|j: int| 0 <= j < i ==> #[trigger] key_table(keys@)[j] == seq![
                encode_utf8(gv[j].from),
            ],
        decreases given@.len() - i,
    {
        let ghost old_keys = keys@;
        let mut key: Vec<&[u8]> = Vec::new();
        key.push(given[i].0.as_str().as_bytes());
        keys.push(key);
        proof {
            assert forall|j: int| 0 <= j < i + 1 implies #[trigger] key_table(keys@)[j] == seq![
                encode_utf8(gv[j].from),
            ] by {
                if j < i {
                    assert(key_table(old_keys)[j] == seq![encode_utf8(gv[j].from)]);
                    assert(keys@[j] == old_keys[j]);
                } else {
                    assert(crate::hash::segments_view(keys@[j]@) =~= seq![encode_utf8(gv[j].from)]);
                }
            }
        }
        i += 1;
    }
    let order: Vec<usize> = sorted_indices(&keys);
    let mut sorted: Vec<RedirectEntry> = Vec::new();
    let mut t: usize = 0;
    while t < order.len()
        invariant
            t <= order@.len(),
            gv == pairs_view(given@),
            is_arrangement(order@, given@.len() as int),
            sorted@.len() == t,
            forall|q: int| 0 <= q < t ==> (#[trigger] sorted@[q])@ == gv[order@[q] as int],
        decreases order@.len() - t,
    {
        let at: usize = order[t];
        assert(at < given@.len());
        sorted.push(RedirectEntry { from: given[at].0.clone(), to: given[at].1.clone() });
        t += 1;
    }
    proof {
        let sv = redirects_view(sorted@);
        let table = key_table(keys@);
        assert(arranged_as(sv, gv, order@));
        assert forall|a: int, b: int| 0 <= a < b < sv.len() implies !bytes_less(
            encode_utf8((#[trigger] sv[b]).from),
            encode_utf8((#[trigger] sv[a]).from),
        ) by {
            let x = order@[a] as int;
            let y = order@[b] as int;
            let kx = encode_utf8(gv[x].from);
            let ky = encode_utf8(gv[y].from);
            assert(table[x] == seq![kx]);
            assert(table[y] == seq![ky]);
            assert(!keys_less(table[y], table[x]));
            assert(seq![kx] =~= Seq::<Seq<u8>>::empty().push(kx));
            assert(seq![ky] =~= Seq::<Seq<u8>>::empty().push(ky));
            lemma_siblings_by_key(Seq::empty(), ky, kx);
        }
    }
    sorted
}

impl TagsConfig {
    /// Checks the parts of a configuration and puts them together: the
    /// name of the module, the mode for removed paths, the tag paths, and
    /// the redirects as pairs of old and new path.
    pub fn from_raw(
        module_name: Option<String>,
        on_remove: Option<String>,
        paths: Vec<String>,
        redirects: Vec<(String, String)>,
    ) -> (r: Result<TagsConfig, TagsConfigError>)
        ensures
            config_outcome(
                match module_name {
                    Some(n) => Some(n@),
                    None => None,
                },
                match on_remove {
                    Some(w) => Some(w@),
                    None => None,
                },
                path_texts(paths@),
                pairs_view(redirects@),
                config_result_view(r),
            ),
    {
        let ghost texts = path_texts(paths@);
        let ghost gv = pairs_view(redirects@);
        let name: String = match module_name {
            Some(n) => n,
            None => String::from_str("Tags"),
        };
        let mode: OnRemove = match &on_remove {
            None => OnRemove::Error,
            Some(word) => {
                if crate::meta::same_text(word.as_str(), "error") {
                    OnRemove::Error
                } else if crate::meta::same_text(word.as_str(), "warn") {
                    OnRemove::Warn
                } else {
                    let text: String = String::from_str("Invalid on_remove value '").concat(
                        word.as_str(),
                    ).concat("': expected 'error' or 'warn'");
                    return Err(TagsConfigError::Validation(text));
                }
            },
        };
        let entries: Vec<TagEntry> = match expand_paths(paths.as_slice()) {
            Ok(entries) => entries,
            Err(e) => {
                proof {
                    let p = choose|p: int|
                        0 <= p < texts.len() && (forall|q: int|
                            0 <= q < p ==> path_valid(#[trigger] texts[q])) && #[trigger] path_answer(
                            texts[p],
                            Err(e),
                        );
                    lemma_refused_path_is_invalid(texts[p], e);
                }
                return Err(e);
            },
        };
        let ghost ev = tags_view(entries@);
        let mut i: usize = 0;
        while i < redirects.len()
            invariant
                i <= redirects@.len(),
                gv == pairs_view(redirects@),
                ev == tags_view(entries@),
                texts == path_texts(paths@),
                mode_of(
                    match on_remove {
                        Some(w) => Some(w@),
                        None => None,
                    },
                ) == Some(mode),
                forall|p: int| 0 <= p < texts.len() ==> path_valid(#[trigger] texts[p]),
                is_expansion(ev, texts),
                forall|j: int| 0 <= j < i ==> redirect_sound(#[trigger] gv[j], ev),
            decreases redirects@.len() - i,
        {
            let from: &str = redirects[i].0.as_str();
            let to: &str = redirects[i].1.as_str();
            assert(gv[i as int].from == from@ && gv[i as int].to == to@);
            match validate_path(from) {
                Ok(_) => {},
                Err(e) => {
                    assert(redirect_refused(gv[i as int], ev, e));
                    return Err(e);
                },
            }
            match validate_path(to) {
                Ok(_) => {},
                Err(e) => {
                    assert(redirect_refused(gv[i as int], ev, e));
                    return Err(e);
                },
            }
            if !tag_exists(&entries, to) {
                let text: String = String::from_str("Redirect target '").concat(to).concat(
                    "' not found in [tags].paths",
                );
                let e = TagsConfigError::Validation(text);
                assert(redirect_refused(gv[i as int], ev, e));
                return Err(e);
            }
            i += 1;
        }
        let sorted: Vec<RedirectEntry> = sort_redirects(&redirects);
        Ok(TagsConfig { module_name: name, on_remove: mode, entries, redirects: sorted })
    }

    /// The tags, in the byte-wise order of their paths.
    pub fn entries(&self) -> (entries: &[TagEntry])
        ensures
            tags_view(entries@) == self@.entries,
    {
        self.entries.as_slice()
    }

    /// The number of tags.
    pub fn len(&self) -> (n: usize)
        ensures
            n == self@.entries.len(),
    {
        self.entries.len()
    }

    /// Whether there is no tag.
    pub fn is_empty(&self) -> (empty: bool)
        ensures
            empty == (self@.entries.len() == 0),
    {
        self.entries.len() == 0
    }

    /// The redirects, in the byte-wise order of their old paths.
    pub fn redirects(&self) -> (redirects: &[RedirectEntry])
        ensures
            redirects_view(redirects@) == self@.redirects,
    {
        self.redirects.as_slice()
    }
}

/// A path that is refused is not valid.
pub proof fn lemma_refused_path_is_invalid(path: Seq<char>, e: TagsConfigError)
    requires
        path_answer(path, Err(e)),
    ensures
        !path_valid(path),
{
    match e {
        TagsConfigError::Validation(text) => {
            let flaw = choose|flaw: PathFlaw|
                flaw_of(classes_of(path), Some(flaw)) && text@ == #[trigger] flaw_text(path, flaw);
            if path_valid(path) {
                lemma_one_flaw(classes_of(path), Some(flaw), None);
            }
        },
        _ => {},
    }
}

} // verus!
