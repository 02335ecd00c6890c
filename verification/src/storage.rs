//! The file index's records and the rules for finding files by tags.
use vstd::prelude::*;
use crate::text::{
    collect_chars, lowercase_of, same_text, split_on, split_ranges, split_trimmed, string_of,
    string_views, to_lowercase, tokens, trim, trim_bounds,
};

verus! {

/// One indexed file and the tags it was added with.
pub struct FileRecord {
    pub path: String,
    pub tags: Vec<String>,
}

impl View for FileRecord {
    type V = (Seq<char>, Seq<Seq<char>>);

    open spec fn view(&self) -> (Seq<char>, Seq<Seq<char>>) {
        (self.path@, string_views(self.tags@))
    }
}

/// The views of a sequence of records.
pub open spec fn record_views(v: Seq<FileRecord>) -> Seq<(Seq<char>, Seq<Seq<char>>)> {
    v.map_values(|r: FileRecord| r@)
}

/// Which back end keeps the index, and where.
pub enum StorageConfig {
    /// A JSON file at this path.
    Json(String),
    /// An SQLite database at this path.
    Sqlite(String),
}

/// The index kept in a JSON file.
pub struct JsonStorage {
    file_path: String,
}

impl View for JsonStorage {
    type V = Seq<char>;

    closed spec fn view(&self) -> Seq<char> {
        self.file_path@
    }
}

impl JsonStorage {
    /// An index kept in the JSON file at `file_path`.
    pub fn new(file_path: String) -> (r: Self)
        ensures r@ == file_path@,
    {
        JsonStorage { file_path }
    }

    /// The path of the JSON file.
    pub fn file_path(&self) -> (r: &str)
        ensures r@ == self@,
    {
        self.file_path.as_str()
    }
}

/// Whether every searched tag is among the record's tags (the searched tags,
/// taken as a set, are a subset of the record's).
pub open spec fn covers(record_tags: Seq<Seq<char>>, search: Seq<Seq<char>>) -> bool {
    forall|i: int| 0 <= i < search.len() ==> record_tags.contains(#[trigger] search[i])
}

/// The records, in order, whose tags cover `search`.
pub open spec fn matching(
    records: Seq<(Seq<char>, Seq<Seq<char>>)>,
    search: Seq<Seq<char>>,
) -> Seq<(Seq<char>, Seq<Seq<char>>)>
    decreases records.len(),
{
    if records.len() == 0 {
        Seq::empty()
    } else {
        let kept = matching(records.drop_last(), search);
        if covers(records.last().1, search) {
            kept.push(records.last())
        } else {
            kept
        }
    }
}

/// Every record found carries all searched tags and is one of the indexed records.
pub proof fn lemma_found_records_match(records: Seq<(Seq<char>, Seq<Seq<char>>)>, search: Seq<Seq<char>>)
    ensures
        forall|i: int| 0 <= i < matching(records, search).len() ==> {
            &&& covers((#[trigger] matching(records, search)[i]).1, search)
            &&& records.contains(matching(records, search)[i])
        },
    decreases records.len(),
{
    if records.len() > 0 {
        lemma_found_records_match(records.drop_last(), search);
        let kept = matching(records.drop_last(), search);
        let all = matching(records, search);
        assert forall|i: int| 0 <= i < all.len() implies {
            &&& covers((#[trigger] all[i]).1, search)
            &&& records.contains(all[i])
        } by {
            if i < kept.len() {
                assert(all[i] == kept[i]);
                let j = choose|j: int| 0 <= j < records.drop_last().len() && records.drop_last()[j] == kept[i];
                assert(records[j] == kept[i]);
            } else {
                assert(all[i] == records.last());
                assert(records[records.len() - 1] == records.last());
            }
        }
    }
}

/// A file added to the index with its tags is found, last, by a search for any of
/// those tags (here: all of them); a search leaves out a file lacking a searched tag.
pub proof fn lemma_added_file_is_found(
    records: Seq<(Seq<char>, Seq<Seq<char>>)>,
    path: Seq<char>,
    tags: Seq<Seq<char>>,
    search: Seq<Seq<char>>,
)
    ensures
        covers(tags, tags),
        covers(tags, search) ==> matching(records.push((path, tags)), search)
            == matching(records, search).push((path, tags)),
        !covers(tags, search) ==> matching(records.push((path, tags)), search) == matching(records, search),
{
    assert(records.push((path, tags)).drop_last() =~= records);
    assert forall|i: int| 0 <= i < tags.len() implies tags.contains(#[trigger] tags[i]) by {}
}

proof fn lemma_covers_by_set(record_tags: Seq<Seq<char>>, s1: Seq<Seq<char>>, s2: Seq<Seq<char>>)
    requires s1.to_set() == s2.to_set(),
    ensures covers(record_tags, s1) ==> covers(record_tags, s2),
{
    broadcast use vstd::seq_lib::group_seq_properties;
    if covers(record_tags, s1) {
        assert forall|i: int| 0 <= i < s2.len() implies record_tags.contains(#[trigger] s2[i]) by {
            assert(s2.to_set().contains(s2[i]));
            assert(s1.contains(s2[i]));
            let j = choose|j: int| 0 <= j < s1.len() && s1[j] == s2[i];
            assert(record_tags.contains(s1[j]));
        }
    }
}

/// Only the set of searched tags matters: searches for the same tags in another
/// order, or with repeats, find the same files.
pub proof fn lemma_search_by_tag_set(
    records: Seq<(Seq<char>, Seq<Seq<char>>)>,
    s1: Seq<Seq<char>>,
    s2: Seq<Seq<char>>,
)
    requires s1.to_set() == s2.to_set(),
    ensures matching(records, s1) == matching(records, s2),
    decreases records.len(),
{
    if records.len() > 0 {
        lemma_search_by_tag_set(records.drop_last(), s1, s2);
        lemma_covers_by_set(records.last().1, s1, s2);
        lemma_covers_by_set(records.last().1, s2, s1);
    }
}

proof fn lemma_covers_fewer(record_tags: Seq<Seq<char>>, fewer: Seq<Seq<char>>, more: Seq<Seq<char>>)
    requires
        forall|i: int| 0 <= i < fewer.len() ==> more.contains(#[trigger] fewer[i]),
        covers(record_tags, more),
    ensures covers(record_tags, fewer),
{
    assert forall|i: int| 0 <= i < fewer.len() implies record_tags.contains(#[trigger] fewer[i]) by {
        assert(more.contains(fewer[i]));
        let j = choose|j: int| 0 <= j < more.len() && more[j] == fewer[i];
        assert(record_tags.contains(more[j]));
    }
}

/// A search for more tags finds part of what a search for fewer of them finds:
/// exactly the files of the smaller search's result that carry the added tags,
/// in the same order.
pub proof fn lemma_more_tags_find_fewer_files(
    records: Seq<(Seq<char>, Seq<Seq<char>>)>,
    fewer: Seq<Seq<char>>,
    more: Seq<Seq<char>>,
)
    requires forall|i: int| 0 <= i < fewer.len() ==> more.contains(#[trigger] fewer[i]),
    ensures matching(records, more) == matching(matching(records, fewer), more),
    decreases records.len(),
{
    if records.len() > 0 {
        let rest = records.drop_last();
        let last = records.last();
        lemma_more_tags_find_fewer_files(rest, fewer, more);
        if covers(last.1, fewer) {
            let m1 = matching(rest, fewer);
            assert(m1.push(last).drop_last() =~= m1);
            assert(m1.push(last).last() == last);
        } else if covers(last.1, more) {
            lemma_covers_fewer(last.1, fewer, more);
        }
    }
}

/// A search with no tags finds every file, in order.
pub proof fn lemma_empty_search_finds_all(records: Seq<(Seq<char>, Seq<Seq<char>>)>)
    ensures matching(records, Seq::empty()) == records,
    decreases records.len(),
{
    if records.len() > 0 {
        lemma_empty_search_finds_all(records.drop_last());
        assert(records.drop_last().push(records.last()) =~= records);
    }
}

/// Whether one of `tags` is exactly `tag`.
pub open spec fn has_tag_equal_to(tags: Seq<Seq<char>>, tag: Seq<char>) -> bool {
    exists|j: int| 0 <= j < tags.len() && tags[j] =~= tag
}

proof fn lemma_covers_means_each_tag_present(record_tags: Seq<Seq<char>>, search: Seq<Seq<char>>)
    ensures
        covers(record_tags, search) <==> forall|i: int|
            0 <= i < search.len() ==> #[trigger] has_tag_equal_to(record_tags, search[i]),
{
    if covers(record_tags, search) {
        assert forall|i: int| 0 <= i < search.len() implies #[trigger] has_tag_equal_to(record_tags, search[i]) by {
            assert(record_tags.contains(search[i]));
            let j = choose|j: int| 0 <= j < record_tags.len() && record_tags[j] == search[i];
            assert(record_tags[j] =~= search[i]);
        }
    }
    if forall|i: int| 0 <= i < search.len() ==> #[trigger] has_tag_equal_to(record_tags, search[i]) {
        assert forall|i: int| 0 <= i < search.len() implies record_tags.contains(#[trigger] search[i]) by {
            assert(has_tag_equal_to(record_tags, search[i]));
            let j = choose|j: int| 0 <= j < record_tags.len() && record_tags[j] =~= search[i];
            assert(record_tags[j] == search[i]);
        }
    }
}

proof fn lemma_covering_record_is_found(records: Seq<(Seq<char>, Seq<Seq<char>>)>, search: Seq<Seq<char>>, k: int)
    requires
        0 <= k < records.len(),
        covers(records[k].1, search),
    ensures matching(records, search).contains(records[k]),
    decreases records.len(),
{
    let m = matching(records, search);
    if k == records.len() - 1 {
        assert(records.last() == records[k]);
        assert(m[m.len() - 1] == records[k]);
    } else {
        let rest = records.drop_last();
        assert(rest[k] == records[k]);
        lemma_covering_record_is_found(rest, search, k);
        let kept = matching(rest, search);
        let j = choose|j: int| 0 <= j < kept.len() && kept[j] == records[k];
        if covers(records.last().1, search) {
            assert(m[j] == kept[j]);
        }
    }
}

/// A search finds exactly the files whose tags include every searched tag, each
/// equal, character for character, to one of the file's tags (a tag that merely
/// begins or ends like a searched one does not count): every file found is an
/// indexed file with each searched tag among its tags, and every indexed file with
/// each searched tag among its tags is found.
pub proof fn lemma_search_finds_exactly_files_with_every_tag(
    records: Seq<(Seq<char>, Seq<Seq<char>>)>,
    search: Seq<Seq<char>>,
)
    ensures
        forall|f: (Seq<char>, Seq<Seq<char>>)| #[trigger] matching(records, search).contains(f) ==> {
            &&& records.contains(f)
            &&& forall|i: int| 0 <= i < search.len() ==> #[trigger] has_tag_equal_to(f.1, search[i])
        },
        forall|k: int| 0 <= k < records.len()
            && (forall|i: int| 0 <= i < search.len() ==> #[trigger] has_tag_equal_to(records[k].1, search[i]))
            ==> #[trigger] matching(records, search).contains(records[k]),
{
    lemma_found_records_match(records, search);
    let m = matching(records, search);
    assert forall|f: (Seq<char>, Seq<Seq<char>>)| #[trigger] m.contains(f) implies {
        &&& records.contains(f)
        &&& forall|i: int| 0 <= i < search.len() ==> #[trigger] has_tag_equal_to(f.1, search[i])
    } by {
        let x = choose|x: int| 0 <= x < m.len() && m[x] == f;
        assert(covers(m[x].1, search));
        lemma_covers_means_each_tag_present(f.1, search);
    }
    assert forall|k: int| 0 <= k < records.len()
        && (forall|i: int| 0 <= i < search.len() ==> #[trigger] has_tag_equal_to(records[k].1, search[i]))
        implies #[trigger] m.contains(records[k]) by {
        lemma_covers_means_each_tag_present(records[k].1, search);
        lemma_covering_record_is_found(records, search, k);
    }
}

/// Whether `tag` is one of `tags`.
fn contains_tag(tags: &Vec<String>, tag: &String) -> (r: bool)
    ensures r == string_views(tags@).contains(tag@),
{
    let mut i: usize = 0;
    while i < tags.len()
        invariant
            i <= tags.len(),
            forall|j: int| 0 <= j < i ==> tags@[j]@ != tag@,
        decreases tags.len() - i,
    {
        if tags[i] == *tag {
            assert(string_views(tags@)[i as int] == tag@);
            return true;
        }
        i = i + 1;
    }
    assert forall|j: int| 0 <= j < string_views(tags@).len() implies string_views(tags@)[j] != tag@ by {
        assert(string_views(tags@)[j] == tags@[j]@);
    }
    false
}

/// Whether a record with `record_tags` carries every tag of `search`.
pub fn has_all_tags(record_tags: &Vec<String>, search: &Vec<String>) -> (r: bool)
    ensures
        r == covers(string_views(record_tags@), string_views(search@)),
        r <==> forall|i: int| 0 <= i < search.len()
            ==> #[trigger] has_tag_equal_to(string_views(record_tags@), search@[i]@),
{
    let mut i: usize = 0;
    let mut all = true;
    while i < search.len() && all
        invariant
            i <= search.len(),
            all ==> forall|j: int| 0 <= j < i ==> string_views(record_tags@).contains(#[trigger] string_views(search@)[j]),
            !all ==> 0 < i && !string_views(record_tags@).contains(string_views(search@)[i - 1]),
        decreases search.len() - i,
    {
        assert(string_views(search@)[i as int] == search@[i as int]@);
        if !contains_tag(record_tags, &search[i]) {
            all = false;
        }
        i = i + 1;
    }
    proof {
        lemma_covers_means_each_tag_present(string_views(record_tags@), string_views(search@));
        assert forall|k: int| 0 <= k < search.len() implies
            string_views(search@)[k] == #[trigger] search@[k]@ by {}
    }
    all
}

/// The records that carry every searched tag, in their order.
pub fn filter_by_tags(records: Vec<FileRecord>, search: &Vec<String>) -> (r: Vec<FileRecord>)
    ensures record_views(r@) == matching(record_views(records@), string_views(search@)),
{
    let ghost all = record_views(records@);
    let mut result: Vec<FileRecord> = Vec::new();
    assert(all.take(0) =~= Seq::<(Seq<char>, Seq<Seq<char>>)>::empty());
    for record in it: records.into_iter()
        invariant
            all == record_views(it.seq()),
            record_views(result@) == matching(all.take(it.index()), string_views(search@)),
    {
        let ghost k = it.index();
        assert(all.take(k + 1).drop_last() =~= all.take(k));
        assert(all.take(k + 1).last() == record@);
        if has_all_tags(&record.tags, search) {
            result.push(record);
        }
        assert(record_views(result@) =~= matching(all.take(k + 1), string_views(search@)));
    }
    assert(all.take(all.len() as int) =~= all);
    result
}

/// Whether `content` holds nothing but whitespace.
pub fn is_blank(content: &str) -> (r: bool)
    ensures r == (trim(content@).len() == 0),
{
    let chars = collect_chars(content);
    assert(chars@.subrange(0, chars@.len() as int) =~= chars@);
    let (a, b) = trim_bounds(&chars, 0, chars.len());
    a == b
}

/// The tags written as a comma-separated list: each trimmed, empty ones dropped.
pub fn parse_tags(tags: &str) -> (r: Vec<String>)
    ensures string_views(r@) == tokens(tags@, ','),
{
    split_trimmed(tags, ',')
}

/// Why a storage setting `type:path` was refused.
#[derive(Debug, Clone, Copy, PartialEq, Eq, Structural)]
pub enum ConfigError {
    /// The setting has no `:`.
    MissingSeparator,
    /// The type is neither `json` nor `sqlite`, in any case.
    UnsupportedType,
}

/// The view of a storage configuration: whether it is SQLite, and its path.
pub open spec fn config_view(c: StorageConfig) -> (bool, Seq<char>) {
    match c {
        StorageConfig::Json(p) => (false, p@),
        StorageConfig::Sqlite(p) => (true, p@),
    }
}

/// The configuration for a lower-cased storage type and a path.
pub open spec fn config_for(kind_lower: Seq<char>, path: Seq<char>) -> Result<(bool, Seq<char>), ConfigError> {
    if kind_lower == "json"@ {
        Ok((false, path))
    } else if kind_lower == "sqlite"@ {
        Ok((true, path))
    } else {
        Err(ConfigError::UnsupportedType)
    }
}

/// The view of a configuration result.
pub open spec fn config_result_view(r: Result<StorageConfig, ConfigError>) -> Result<(bool, Seq<char>), ConfigError> {
    match r {
        Ok(c) => Ok(config_view(c)),
        Err(e) => Err(e),
    }
}

/// The storage for an already lower-cased type (`json` or `sqlite`) and a path.
pub fn storage_config_for(kind_lower: &str, path: &str) -> (r: Result<StorageConfig, ConfigError>)
    ensures config_result_view(r) == config_for(kind_lower@, path@),
{
    let kind = kind_lower.to_owned();
    if same_text(&kind, "json") {
        Ok(StorageConfig::Json(path.to_owned()))
    } else if same_text(&kind, "sqlite") {
        Ok(StorageConfig::Sqlite(path.to_owned()))
    } else {
        Err(ConfigError::UnsupportedType)
    }
}

/// What the setting `value`, written `type:path`, configures: the text before the
/// first `:` is the type, in any case; the rest is the path.
pub open spec fn setting_result(value: Seq<char>) -> Result<(bool, Seq<char>), ConfigError> {
    let pieces = split_on(value, ':');
    if pieces.len() < 2 {
        Err(ConfigError::MissingSeparator)
    } else {
        config_for(lowercase_of(pieces[0]), value.skip(pieces[0].len() + 1int))
    }
}

/// Reads a storage setting written `type:path`, such as `json:index.json`.
pub fn parse_storage_config(value: &str) -> (r: Result<StorageConfig, ConfigError>)
    ensures config_result_view(r) == setting_result(value@),
{
    let chars = collect_chars(value);
    let pieces = split_ranges(&chars, ':');
    if pieces.len() < 2 {
        return Err(ConfigError::MissingSeparator);
    }
    let (lo, hi) = pieces[0];
    assert(chars@.subrange(pieces@[0].0 as int, pieces@[0].1 as int) == split_on(chars@, ':')[0]);
    assert(chars@.subrange(pieces@[1].0 as int, pieces@[1].1 as int) == split_on(chars@, ':')[1]);
    let kind = string_of(&chars, lo, hi);
    let (plo, _) = pieces[1];
    let path = string_of(&chars, plo, chars.len());
    assert(path@ =~= chars@.skip(hi + 1));
    let lowered = to_lowercase(kind.as_str());
    storage_config_for(lowered.as_str(), path.as_str())
}

}
