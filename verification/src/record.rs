//! The metadata record: its fields, how a comment is merged into it, and
//! its rendering as one line of text.

use vstd::prelude::*;
use vstd::string::*;
use crate::text::{lowercase_text, lowercased, trim_text, trimmed};

verus! {

/// A key and its value: a decoded comment, or an extension entry of a record.
#[derive(Debug, Clone, PartialEq, Eq)]
pub struct Entry {
    pub key: String,
    pub value: String,
}

/// One snapshot of track metadata.
#[derive(Debug, Clone, PartialEq, Eq)]
pub struct StreamMetadata {
    pub title: String,
    pub artist: Option<String>,
    pub album: Option<String>,
    pub genre: Option<String>,
    /// Extension entries in the order in which their keys first came.
    pub other: Vec<Entry>,
    /// Milliseconds since the epoch at the last change.
    pub last_update: u64,
}

/// The mathematical value of a record.
pub struct MetadataView {
    pub title: Seq<char>,
    pub artist: Option<Seq<char>>,
    pub album: Option<Seq<char>>,
    pub genre: Option<Seq<char>>,
    pub other: Seq<(Seq<char>, Seq<char>)>,
    pub last_update: u64,
}

/// The place in a record that a key addresses.
#[derive(Debug, Clone, Copy, PartialEq, Eq, Structural)]
pub enum Field {
    Artist,
    Title,
    Album,
    Genre,
    Extension,
}

/// The title of a record that has none yet.
pub open spec fn default_title() -> Seq<char> {
    "Unknown"@
}

/// The text of an optional field.
pub open spec fn text_of(field: Option<String>) -> Option<Seq<char>> {
    match field {
        Some(text) => Some(text@),
        None => None,
    }
}

/// The entries as pairs of key and value.
pub open spec fn entries_of(entries: Seq<Entry>) -> Seq<(Seq<char>, Seq<char>)> {
    Seq::new(entries.len(), |i: int| (entries[i].key@, entries[i].value@))
}

impl View for StreamMetadata {
    type V = MetadataView;

    open spec fn view(&self) -> MetadataView {
        MetadataView {
            title: self.title@,
            artist: text_of(self.artist),
            album: text_of(self.album),
            genre: text_of(self.genre),
            other: entries_of(self.other@),
            last_update: self.last_update,
        }
    }
}

/// The field that a key addresses: one of the four reserved names, compared
/// in lowercase, or else an extension.
pub open spec fn field_of(key: Seq<char>) -> Field {
    field_named(lowercased(key))
}

/// The field that bears this name, written in lowercase.
pub open spec fn field_named(name: Seq<char>) -> Field {
    if name == "artist"@ {
        Field::Artist
    } else if name == "title"@ {
        Field::Title
    } else if name == "album"@ {
        Field::Album
    } else if name == "genre"@ {
        Field::Genre
    } else {
        Field::Extension
    }
}

/// No key occurs twice among the entries.
pub open spec fn distinct_keys(other: Seq<(Seq<char>, Seq<char>)>) -> bool {
    forall|i: int, j: int| 0 <= i < j < other.len() ==> other[i].0 != other[j].0
}

/// Index of the first entry at or after `from` with this key, or the number
/// of entries where there is none.
pub open spec fn slot_from(other: Seq<(Seq<char>, Seq<char>)>, key: Seq<char>, from: int) -> int
    decreases other.len() - from,
{
    if from < 0 || from >= other.len() {
        other.len() as int
    } else if other[from].0 == key {
        from
    } else {
        slot_from(other, key, from + 1)
    }
}

/// The entries after `key` has been given `value`: replaced in place where
/// the key is present, appended where it is not.
pub open spec fn with_entry(other: Seq<(Seq<char>, Seq<char>)>, key: Seq<char>, value: Seq<char>)
    -> Seq<(Seq<char>, Seq<char>)> {
    let at = slot_from(other, key, 0);
    if at < other.len() {
        other.update(at, (key, value))
    } else {
        other.push((key, value))
    }
}

/// Giving `key` the value `value` would alter the entries.
pub open spec fn entry_changes(other: Seq<(Seq<char>, Seq<char>)>, key: Seq<char>, value: Seq<char>)
    -> bool {
    let at = slot_from(other, key, 0);
    at >= other.len() || other[at].1 != value
}

/// A record as first made at time `now_ms`.
pub open spec fn fresh(now_ms: u64) -> MetadataView {
    MetadataView {
        title: default_title(),
        artist: None,
        album: None,
        genre: None,
        other: Seq::empty(),
        last_update: now_ms,
    }
}

/// Merging the comment `key = value` would alter a field of the record.
pub open spec fn changes(record: MetadataView, key: Seq<char>, value: Seq<char>) -> bool {
    changes_at(record, field_of(key), key, value)
}

/// Writing `value` to `field`, under `key` where that is an extension, would
/// alter the record.
pub open spec fn changes_at(record: MetadataView, field: Field, key: Seq<char>, value: Seq<char>)
    -> bool {
    match field {
        Field::Artist => record.artist != Some(value),
        Field::Title => record.title != value,
        Field::Album => record.album != Some(value),
        Field::Genre => record.genre != Some(value),
        Field::Extension => entry_changes(record.other, key, value),
    }
}

/// The record with the comment `key = value` written to the place that the
/// key addresses, the timestamp left as it was.
pub open spec fn written(record: MetadataView, key: Seq<char>, value: Seq<char>) -> MetadataView {
    written_at(record, field_of(key), key, value)
}

/// The record with `value` written to `field`, under `key` where that is an
/// extension, the timestamp left as it was.
pub open spec fn written_at(record: MetadataView, field: Field, key: Seq<char>, value: Seq<char>)
    -> MetadataView {
    match field {
        Field::Artist => MetadataView { artist: Some(value), ..record },
        Field::Title => MetadataView { title: value, ..record },
        Field::Album => MetadataView { album: Some(value), ..record },
        Field::Genre => MetadataView { genre: Some(value), ..record },
        Field::Extension => MetadataView { other: with_entry(record.other, key, value), ..record },
    }
}

/// The record after merging the comment `key = value` at time `now_ms`:
/// untouched where nothing differs, else written and stamped.
pub open spec fn applied(record: MetadataView, key: Seq<char>, value: Seq<char>, now_ms: u64)
    -> MetadataView {
    applied_at(record, field_of(key), key, value, now_ms)
}

/// The record after `value` was offered to `field` at time `now_ms`:
/// untouched where nothing differs, else written and stamped.
pub open spec fn applied_at(
    record: MetadataView,
    field: Field,
    key: Seq<char>,
    value: Seq<char>,
    now_ms: u64,
) -> MetadataView {
    if changes_at(record, field, key, value) {
        MetadataView { last_update: now_ms, ..written_at(record, field, key, value) }
    } else {
        record
    }
}

/// The record after merging the comments in order, each at time `now_ms`.
pub open spec fn merged(record: MetadataView, comments: Seq<(Seq<char>, Seq<char>)>, now_ms: u64)
    -> MetadataView
    decreases comments.len(),
{
    if comments.len() == 0 {
        record
    } else {
        let last = comments.last();
        applied(merged(record, comments.drop_last(), now_ms), last.0, last.1, now_ms)
    }
}

/// Merging the comments in order alters the record at some step.
pub open spec fn any_change(
    record: MetadataView,
    comments: Seq<(Seq<char>, Seq<char>)>,
    now_ms: u64,
) -> bool
    decreases comments.len(),
{
    if comments.len() == 0 {
        false
    } else {
        let last = comments.last();
        any_change(record, comments.drop_last(), now_ms) || changes(
            merged(record, comments.drop_last(), now_ms),
            last.0,
            last.1,
        )
    }
}

/// A record is complete once it has a title of its own or an artist.
pub open spec fn complete(record: MetadataView) -> bool {
    record.title != default_title() || record.artist.is_some()
}

/// One part of a rendering: a label, a colon and the trimmed value.
pub open spec fn part(label: Seq<char>, value: Seq<char>) -> Seq<char> {
    line_of(label, trimmed(value))
}

/// A label, a colon, a space and a text.
pub open spec fn line_of(label: Seq<char>, text: Seq<char>) -> Seq<char> {
    label + ": "@ + text
}

/// The parts for the fixed fields, in their order.
pub open spec fn fixed_parts(record: MetadataView) -> Seq<Seq<char>> {
    let artist = match record.artist {
        Some(text) => seq![part("Artist"@, text)],
        None => Seq::empty(),
    };
    let album = match record.album {
        Some(text) => seq![part("Album"@, text)],
        None => Seq::empty(),
    };
    let genre = match record.genre {
        Some(text) => seq![part("Genre"@, text)],
        None => Seq::empty(),
    };
    artist + seq![part("Title"@, record.title)] + album + genre
}

/// The parts for the extension entries whose key is no reserved name, in
/// the order of the entries.
pub open spec fn extra_parts(other: Seq<(Seq<char>, Seq<char>)>) -> Seq<Seq<char>>
    decreases other.len(),
{
    if other.len() == 0 {
        Seq::empty()
    } else {
        let last = other.last();
        let rest = extra_parts(other.drop_last());
        if field_of(last.0) == Field::Extension {
            rest.push(part(trimmed(last.0), last.1))
        } else {
            rest
        }
    }
}

/// The parts with `separator` between each two neighbours.
pub open spec fn joined(parts: Seq<Seq<char>>, separator: Seq<char>) -> Seq<char>
    decreases parts.len(),
{
    if parts.len() == 0 {
        Seq::empty()
    } else if parts.len() == 1 {
        parts[0]
    } else {
        joined(parts.drop_last(), separator) + separator + parts.last()
    }
}

/// The one-line rendering of a record.
pub open spec fn rendered(record: MetadataView) -> Seq<char> {
    joined(fixed_parts(record) + extra_parts(record.other), " | "@)
}

/// The strings as texts.
pub open spec fn texts(parts: Seq<String>) -> Seq<Seq<char>> {
    Seq::new(parts.len(), |i: int| parts[i]@)
}

/// What `slot_from` finds: the first entry with the key from `from` on.
pub proof fn lemma_slot_from(other: Seq<(Seq<char>, Seq<char>)>, key: Seq<char>, from: int)
    requires
        0 <= from <= other.len(),
    ensures
        from <= slot_from(other, key, from) <= other.len(),
        slot_from(other, key, from) < other.len() ==> other[slot_from(other, key, from)].0 == key,
        forall|j: int| from <= j < slot_from(other, key, from) ==> other[j].0 != key,
    decreases other.len() - from,
{
    if from < other.len() && other[from].0 != key {
        lemma_slot_from(other, key, from + 1);
    }
}

/// An index with the key and none before it is what `slot_from` finds.
pub proof fn lemma_slot_is(other: Seq<(Seq<char>, Seq<char>)>, key: Seq<char>, from: int, at: int)
    requires
        0 <= from <= at < other.len(),
        other[at].0 == key,
        forall|j: int| from <= j < at ==> other[j].0 != key,
    ensures
        slot_from(other, key, from) == at,
    decreases at - from,
{
    if from < at {
        lemma_slot_is(other, key, from + 1, at);
    }
}

/// Writing an entry keeps the keys distinct, and the key is then found
/// with that value.
pub proof fn lemma_with_entry(other: Seq<(Seq<char>, Seq<char>)>, key: Seq<char>, value: Seq<char>)
    requires
        distinct_keys(other),
    ensures
        distinct_keys(with_entry(other, key, value)),
        !entry_changes(with_entry(other, key, value), key, value),
        with_entry(with_entry(other, key, value), key, value) == with_entry(other, key, value),
{
    lemma_slot_from(other, key, 0);
    let at = slot_from(other, key, 0);
    let after = with_entry(other, key, value);
    lemma_slot_is(after, key, 0, at);
    assert(after.update(at, (key, value)) =~= after);
}

/// The extension entries as a mapping from key to value.
pub open spec fn extension_map(other: Seq<(Seq<char>, Seq<char>)>) -> Map<Seq<char>, Seq<char>> {
    Map::new(
        |key: Seq<char>| slot_from(other, key, 0) < other.len(),
        |key: Seq<char>| other[slot_from(other, key, 0)].1,
    )
}

/// Writing an entry is inserting into the mapping: the key then maps to
/// the value, and every other key maps to what it mapped to before.
pub proof fn law_write_is_insert(
    other: Seq<(Seq<char>, Seq<char>)>,
    key: Seq<char>,
    value: Seq<char>,
)
    ensures
        extension_map(with_entry(other, key, value)) == extension_map(other).insert(key, value),
{
    let after = with_entry(other, key, value);
    let at = slot_from(other, key, 0);
    lemma_slot_from(other, key, 0);
    lemma_slot_is(after, key, 0, at);
    assert forall|name: Seq<char>| name != key implies ((slot_from(after, name, 0) < after.len())
        == (slot_from(other, name, 0) < other.len())) && (slot_from(other, name, 0) < other.len()
        ==> after[slot_from(after, name, 0)].1 == other[slot_from(other, name, 0)].1) by {
        let was = slot_from(other, name, 0);
        lemma_slot_from(other, name, 0);
        lemma_slot_from(after, name, 0);
        if was < other.len() {
            lemma_slot_is(after, name, 0, was);
        } else {
            let now = slot_from(after, name, 0);
            if now < after.len() {
                if now < other.len() {
                    assert(other[now].0 == name);
                }
            }
        }
    }
    assert(extension_map(after) =~= extension_map(other).insert(key, value));
}

/// Merging a comment touches one place only: a key that names a fixed
/// field leaves the other three and the extension entries as they were, and
/// any other key leaves all four fixed fields as they were. The timestamp
/// is renewed exactly when something changed.
pub proof fn law_apply_touches_one_place(
    record: MetadataView,
    key: Seq<char>,
    value: Seq<char>,
    now_ms: u64,
)
    ensures
        field_of(key) != Field::Artist ==> applied(record, key, value, now_ms).artist
            == record.artist,
        field_of(key) != Field::Title ==> applied(record, key, value, now_ms).title
            == record.title,
        field_of(key) != Field::Album ==> applied(record, key, value, now_ms).album
            == record.album,
        field_of(key) != Field::Genre ==> applied(record, key, value, now_ms).genre
            == record.genre,
        field_of(key) != Field::Extension ==> applied(record, key, value, now_ms).other
            == record.other,
        field_of(key) == Field::Artist ==> applied(record, key, value, now_ms).artist == Some(
            value,
        ),
        field_of(key) == Field::Title ==> applied(record, key, value, now_ms).title == value,
        field_of(key) == Field::Album ==> applied(record, key, value, now_ms).album == Some(value),
        field_of(key) == Field::Genre ==> applied(record, key, value, now_ms).genre == Some(value),
        field_of(key) == Field::Extension ==> !entry_changes(
            applied(record, key, value, now_ms).other,
            key,
            value,
        ),
        applied(record, key, value, now_ms).last_update == if changes(record, key, value) {
            now_ms
        } else {
            record.last_update
        },
        !changes(record, key, value) ==> applied(record, key, value, now_ms) == record,
{
    if field_of(key) == Field::Extension && changes(record, key, value) {
        lemma_slot_from(record.other, key, 0);
        let at = slot_from(record.other, key, 0);
        lemma_slot_is(with_entry(record.other, key, value), key, 0, at);
    }
}

/// Merging the same comment a second time changes nothing: it reports no
/// change and leaves the record, its timestamp included, as the first
/// merge left it.
pub proof fn law_reapply_changes_nothing(
    record: MetadataView,
    key: Seq<char>,
    value: Seq<char>,
    first_ms: u64,
    second_ms: u64,
)
    ensures
        !changes(applied(record, key, value, first_ms), key, value),
        applied(applied(record, key, value, first_ms), key, value, second_ms) == applied(
            record,
            key,
            value,
            first_ms,
        ),
{
    law_apply_touches_one_place(record, key, value, first_ms);
}

/// A new record is not complete. Whatever the record, it is complete once
/// a title other than the default, or any artist, has been merged into it.
pub proof fn law_completeness(
    record: MetadataView,
    key: Seq<char>,
    value: Seq<char>,
    made_ms: u64,
    now_ms: u64,
)
    ensures
        !complete(fresh(made_ms)),
        field_of(key) == Field::Title && value != default_title() ==> complete(
            applied(record, key, value, now_ms),
        ),
        field_of(key) == Field::Artist ==> complete(applied(record, key, value, now_ms)),
{
}

/// The field that a key addresses.
pub fn classify(key: &str) -> (field: Field)
    ensures
        field == field_of(key@),
{
    let name = lowercase_text(key);
    field_for_name(name.as_str())
}

/// The field that bears this name, written in lowercase: one of the four
/// fixed fields, or else an extension.
pub fn field_for_name(name: &str) -> (field: Field)
    ensures
        field == field_named(name@),
{
    let name = String::from_str(name);
    if name == String::from_str("artist") {
        Field::Artist
    } else if name == String::from_str("title") {
        Field::Title
    } else if name == String::from_str("album") {
        Field::Album
    } else if name == String::from_str("genre") {
        Field::Genre
    } else {
        Field::Extension
    }
}

/// A copy of an optional text.
fn copy_text(field: &Option<String>) -> (copy: Option<String>)
    ensures
        copy == *field,
{
    match field {
        Some(text) => Some(text.clone()),
        None => None,
    }
}

/// Whether an optional field holds exactly this text.
fn holds(field: &Option<String>, value: &String) -> (same: bool)
    ensures
        same == (text_of(*field) == Some(value@)),
{
    match field {
        Some(text) => *text == *value,
        None => false,
    }
}

/// Gives `key` the value `value` among the entries, and says whether that
/// altered them.
fn put_entry(entries: &mut Vec<Entry>, key: String, value: String) -> (changed: bool)
    ensures
        changed == entry_changes(entries_of(old(entries)@), key@, value@),
        changed ==> entries_of(final(entries)@) == with_entry(
            entries_of(old(entries)@),
            key@,
            value@,
        ),
        !changed ==> final(entries)@ == old(entries)@,
{
    let ghost before = entries_of(entries@);
    let n: usize = entries.len();
    let mut i: usize = 0;
    while i < n
        invariant
            i <= n,
            n == entries@.len(),
            entries@ == old(entries)@,
            before == entries_of(entries@),
            slot_from(before, key@, 0) == slot_from(before, key@, i as int),
        decreases n - i,
    {
        if entries[i].key == key {
            if entries[i].value == value {
                return false;
            }
            entries[i] = Entry { key, value };
            proof {
                assert(entries_of(entries@) =~= before.update(i as int, (key@, value@)));
            }
            return true;
        }
        i = i + 1;
    }
    entries.push(Entry { key, value });
    proof {
        assert(entries_of(entries@) =~= before.push((key@, value@)));
    }
    true
}

/// A label, a colon and the trimmed value.
fn labelled(label: &str, value: &str) -> (out: String)
    ensures
        out@ == part(label@, value@),
{
    let value = trim_text(value);
    label_line(label, value.as_str())
}

/// A label, a colon, a space and a text.
pub fn label_line(label: &str, text: &str) -> (out: String)
    ensures
        out@ == line_of(label@, text@),
{
    String::from_str(label).concat(": ").concat(text)
}

/// Joins the parts with `" | "` between neighbours.
pub fn join_parts(parts: &Vec<String>) -> (out: String)
    ensures
        out@ == joined(texts(parts@), " | "@),
{
    let n: usize = parts.len();
    let mut out = String::new();
    let mut i: usize = 0;
    while i < n
        invariant
            i <= n,
            n == parts@.len(),
            out@ == joined(texts(parts@).subrange(0, i as int), " | "@),
        decreases n - i,
    {
        let ghost done = texts(parts@).subrange(0, i as int);
        let ghost next = texts(parts@).subrange(0, i + 1);
        proof {
            assert(next.drop_last() =~= done);
            assert(next.last() == parts@[i as int]@);
        }
        if i > 0 {
            out.append(" | ");
        } else {
            proof {
                assert(out@ =~= Seq::<char>::empty());
                assert(Seq::<char>::empty() + parts@[i as int]@ =~= parts@[i as int]@);
            }
        }
        out.append(parts[i].as_str());
        i = i + 1;
    }
    proof {
        assert(texts(parts@).subrange(0, n as int) =~= texts(parts@));
    }
    out
}

impl StreamMetadata {
    /// The keys of the extension entries are distinct.
    pub open spec fn wf(&self) -> bool {
        distinct_keys(self@.other)
    }

    /// A record with the default title and nothing else, stamped `now_ms`.
    pub fn new(now_ms: u64) -> (record: Self)
        ensures
            record@ == fresh(now_ms),
            record.wf(),
    {
        let record = StreamMetadata {
            title: String::from_str("Unknown"),
            artist: None,
            album: None,
            genre: None,
            other: Vec::new(),
            last_update: now_ms,
        };
        proof {
            assert(record@.other =~= Seq::empty());
        }
        record
    }

    /// Whether the record has a title of its own or an artist.
    pub fn is_complete(&self) -> (done: bool)
        ensures
            done == complete(self@),
    {
        self.title != String::from_str("Unknown") || self.artist.is_some()
    }

    /// Merges the comment `key = value` into the record at time `now_ms`.
    /// The key picks one of the four fixed fields, case-insensitively, or
    /// else an extension entry. Nothing is written unless the value
    /// differs from what is stored, and only then is the timestamp renewed.
    pub fn update_from_comment(&mut self, key: &str, value: &str, now_ms: u64) -> (changed: bool)
        ensures
            old(self).wf() ==> final(self).wf(),
            changed == changes(old(self)@, key@, value@),
            final(self)@ == applied(old(self)@, key@, value@, now_ms),
    {
        let field = classify(key);
        self.write_field(field, key, value, now_ms)
    }

    /// Offers `value` to `field` at time `now_ms`; for an extension, to the
    /// entry with this very key. Nothing is written unless the value
    /// differs from what is stored, and only then is the timestamp renewed.
    pub fn write_field(&mut self, field: Field, key: &str, value: &str, now_ms: u64) -> (changed:
        bool)
        ensures
            old(self).wf() ==> final(self).wf(),
            changed == changes_at(old(self)@, field, key@, value@),
            final(self)@ == applied_at(old(self)@, field, key@, value@, now_ms),
    {
        let text = String::from_str(value);
        let mut updated = false;
        match field {
            Field::Artist => {
                if !holds(&self.artist, &text) {
                    self.artist = Some(text);
                    updated = true;
                }
            },
            Field::Title => {
                if self.title != text {
                    self.title = text;
                    updated = true;
                }
            },
            Field::Album => {
                if !holds(&self.album, &text) {
                    self.album = Some(text);
                    updated = true;
                }
            },
            Field::Genre => {
                if !holds(&self.genre, &text) {
                    self.genre = Some(text);
                    updated = true;
                }
            },
            Field::Extension => {
                proof {
                    if old(self).wf() {
                        lemma_with_entry(old(self)@.other, key@, value@);
                    }
                }
                updated = put_entry(&mut self.other, String::from_str(key), text);
            },
        }
        if updated {
            self.last_update = now_ms;
        }
        updated
    }

    /// A copy of the record, equal to it in every field.
    pub fn duplicate(&self) -> (copy: Self)
        ensures
            copy@ == self@,
    {
        let mut other: Vec<Entry> = Vec::new();
        let n: usize = self.other.len();
        let mut i: usize = 0;
        while i < n
            invariant
                i <= n,
                n == self.other@.len(),
                entries_of(other@) == entries_of(self.other@).subrange(0, i as int),
            decreases n - i,
        {
            let ghost before = entries_of(other@);
            other.push(Entry { key: self.other[i].key.clone(), value: self.other[i].value.clone() });
            proof {
                assert(entries_of(other@) =~= before.push(entries_of(self.other@)[i as int]));
                assert(entries_of(other@) =~= entries_of(self.other@).subrange(0, i + 1));
            }
            i = i + 1;
        }
        proof {
            assert(entries_of(self.other@).subrange(0, n as int) =~= entries_of(self.other@));
        }
        StreamMetadata {
            title: self.title.clone(),
            artist: copy_text(&self.artist),
            album: copy_text(&self.album),
            genre: copy_text(&self.genre),
            other,
            last_update: self.last_update,
        }
    }

    /// The record as one line: `Artist`, `Title`, `Album`, `Genre` and then
    /// the extension entries, each as label, colon and trimmed value, with
    /// `" | "` between them. Fields that are not set are left out, the
    /// title never is, and an extension entry whose key is a reserved
    /// name is passed over.
    pub fn display(&self) -> (out: String)
        ensures
            out@ == rendered(self@),
    {
        let mut parts: Vec<String> = Vec::new();
        if let Some(artist) = &self.artist {
            parts.push(labelled("Artist", artist.as_str()));
        }
        parts.push(labelled("Title", self.title.as_str()));
        if let Some(album) = &self.album {
            parts.push(labelled("Album", album.as_str()));
        }
        if let Some(genre) = &self.genre {
            parts.push(labelled("Genre", genre.as_str()));
        }
        proof {
            assert(texts(parts@) =~= fixed_parts(self@));
            assert(self@.other.subrange(0, 0) =~= Seq::empty());
            assert(texts(parts@) =~= fixed_parts(self@) + extra_parts(self@.other.subrange(0, 0)));
        }
        let n: usize = self.other.len();
        let mut i: usize = 0;
        while i < n
            invariant
                i <= n,
                n == self.other@.len(),
                texts(parts@) == fixed_parts(self@) + extra_parts(
                    self@.other.subrange(0, i as int),
                ),
            decreases n - i,
        {
            let ghost next = self@.other.subrange(0, i + 1);
            proof {
                assert(next.drop_last() =~= self@.other.subrange(0, i as int));
                assert(next.last() == (self.other@[i as int].key@, self.other@[i as int].value@));
            }
            let entry = &self.other[i];
            match classify(entry.key.as_str()) {
                Field::Extension => {
                    let ghost prior = texts(parts@);
                    let label = trim_text(entry.key.as_str());
                    let piece = labelled(label.as_str(), entry.value.as_str());
                    parts.push(piece);
                    proof {
                        let added = part(trimmed(next.last().0), next.last().1);
                        assert(texts(parts@) =~= prior.push(added));
                        assert(extra_parts(next) == extra_parts(next.drop_last()).push(added));
                        assert(texts(parts@) =~= fixed_parts(self@) + extra_parts(next));
                    }
                },
                _ => {},
            }
            i = i + 1;
        }
        proof {
            assert(self@.other.subrange(0, n as int) =~= self@.other);
        }
        join_parts(&parts)
    }
}

} // verus!
