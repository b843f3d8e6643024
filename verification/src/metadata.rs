//! Metadata fields, the user's per-field overrides, and the checks that an
//! encoded file retained them.
use crate::error::ExportError;
use crate::text::{bounded_prefix, contains_nul, eq_ignore_case, floor_boundary, no_nul, owned, push_str, same_ignoring_ascii_case, same_text, text_is_empty};
use vstd::prelude::*;
use vstd::utf8::*;

verus! {

/// A user-editable metadata field, in export order.
#[derive(Clone, Copy, Debug, Eq, Ord, PartialEq, PartialOrd, Hash, Structural)]
pub enum MetadataField {
    Title,
    Artist,
    Album,
    AlbumArtist,
    Composer,
    Genre,
    Date,
    Track,
    Comment,
    Copyright,
}

/// Position of a field in [`MetadataField::ALL`].
pub open spec fn field_index(f: MetadataField) -> int {
    match f {
        MetadataField::Title => 0,
        MetadataField::Artist => 1,
        MetadataField::Album => 2,
        MetadataField::AlbumArtist => 3,
        MetadataField::Composer => 4,
        MetadataField::Genre => 5,
        MetadataField::Date => 6,
        MetadataField::Track => 7,
        MetadataField::Comment => 8,
        MetadataField::Copyright => 9,
    }
}

/// The field at a position of [`MetadataField::ALL`].
pub open spec fn field_at(i: int) -> MetadataField {
    if i == 0 { MetadataField::Title }
    else if i == 1 { MetadataField::Artist }
    else if i == 2 { MetadataField::Album }
    else if i == 3 { MetadataField::AlbumArtist }
    else if i == 4 { MetadataField::Composer }
    else if i == 5 { MetadataField::Genre }
    else if i == 6 { MetadataField::Date }
    else if i == 7 { MetadataField::Track }
    else if i == 8 { MetadataField::Comment }
    else { MetadataField::Copyright }
}

/// Container tag name of a field.
pub open spec fn key_text(f: MetadataField) -> Seq<char> {
    match f {
        MetadataField::Title => "title"@,
        MetadataField::Artist => "artist"@,
        MetadataField::Album => "album"@,
        MetadataField::AlbumArtist => "album_artist"@,
        MetadataField::Composer => "composer"@,
        MetadataField::Genre => "genre"@,
        MetadataField::Date => "date"@,
        MetadataField::Track => "track"@,
        MetadataField::Comment => "comment"@,
        MetadataField::Copyright => "copyright"@,
    }
}

/// Display name of a field.
pub open spec fn label_text(f: MetadataField) -> Seq<char> {
    match f {
        MetadataField::Title => "Title"@,
        MetadataField::Artist => "Artist"@,
        MetadataField::Album => "Album"@,
        MetadataField::AlbumArtist => "Album artist"@,
        MetadataField::Composer => "Composer"@,
        MetadataField::Genre => "Genre"@,
        MetadataField::Date => "Date"@,
        MetadataField::Track => "Track"@,
        MetadataField::Comment => "Comment"@,
        MetadataField::Copyright => "Copyright"@,
    }
}

impl MetadataField {
    /// Every field, in export order.
    pub const ALL: [MetadataField; 10] = [
        MetadataField::Title,
        MetadataField::Artist,
        MetadataField::Album,
        MetadataField::AlbumArtist,
        MetadataField::Composer,
        MetadataField::Genre,
        MetadataField::Date,
        MetadataField::Track,
        MetadataField::Comment,
        MetadataField::Copyright,
    ];

    /// The position of this field in export order.
    pub fn index(self) -> (r: usize)
        ensures
            r == field_index(self),
            field_at(r as int) == self,
    {
        match self {
            MetadataField::Title => 0,
            MetadataField::Artist => 1,
            MetadataField::Album => 2,
            MetadataField::AlbumArtist => 3,
            MetadataField::Composer => 4,
            MetadataField::Genre => 5,
            MetadataField::Date => 6,
            MetadataField::Track => 7,
            MetadataField::Comment => 8,
            MetadataField::Copyright => 9,
        }
    }

    /// The field at a position in export order.
    pub fn at(i: usize) -> (r: MetadataField)
        requires
            i < 10,
        ensures
            r == field_at(i as int),
            field_index(r) == i,
    {
        if i == 0 { MetadataField::Title }
        else if i == 1 { MetadataField::Artist }
        else if i == 2 { MetadataField::Album }
        else if i == 3 { MetadataField::AlbumArtist }
        else if i == 4 { MetadataField::Composer }
        else if i == 5 { MetadataField::Genre }
        else if i == 6 { MetadataField::Date }
        else if i == 7 { MetadataField::Track }
        else if i == 8 { MetadataField::Comment }
        else { MetadataField::Copyright }
    }

    /// The container tag name.
    pub fn key(self) -> (r: &'static str)
        ensures
            r@ == key_text(self),
    {
        match self {
            MetadataField::Title => "title",
            MetadataField::Artist => "artist",
            MetadataField::Album => "album",
            MetadataField::AlbumArtist => "album_artist",
            MetadataField::Composer => "composer",
            MetadataField::Genre => "genre",
            MetadataField::Date => "date",
            MetadataField::Track => "track",
            MetadataField::Comment => "comment",
            MetadataField::Copyright => "copyright",
        }
    }

    /// The display name.
    pub fn label(self) -> (r: &'static str)
        ensures
            r@ == label_text(self),
    {
        match self {
            MetadataField::Title => "Title",
            MetadataField::Artist => "Artist",
            MetadataField::Album => "Album",
            MetadataField::AlbumArtist => "Album artist",
            MetadataField::Composer => "Composer",
            MetadataField::Genre => "Genre",
            MetadataField::Date => "Date",
            MetadataField::Track => "Track",
            MetadataField::Comment => "Comment",
            MetadataField::Copyright => "Copyright",
        }
    }
}

/// One value found in a source file, bounded for display.
#[derive(Clone, Debug, Eq, PartialEq)]
pub struct MetadataSourceValue {
    pub field: MetadataField,
    pub scope: &'static str,
    pub value: String,
    pub truncated: bool,
}

/// Most bytes of one field's text.
pub const FIELD_LIMIT: usize = 1024;
/// Most bytes of all fields' texts together.
pub const TOTAL_LIMIT: usize = 4096;

/// UTF-8 size of an optional text.
pub open spec fn entry_bytes(v: Option<Seq<char>>) -> nat {
    match v {
        Some(s) => encode_utf8(s).len(),
        None => 0,
    }
}

/// UTF-8 size of all texts of a settings sequence.
pub open spec fn total_bytes(s: Seq<Option<Seq<char>>>) -> nat
    decreases s.len(),
{
    if s.len() == 0 {
        0
    } else {
        total_bytes(s.drop_last()) + entry_bytes(s.last())
    }
}

/// UTF-8 size of every text but the one at `i`.
pub open spec fn other_bytes(s: Seq<Option<Seq<char>>>, i: int) -> nat {
    total_bytes(s.update(i, None))
}

/// Whether a text may be stored for field `i` beside the others.
pub open spec fn acceptable(s: Seq<Option<Seq<char>>>, i: int, v: Seq<char>) -> bool {
    &&& no_nul(v)
    &&& encode_utf8(v).len() <= FIELD_LIMIT
    &&& other_bytes(s, i) + encode_utf8(v).len() <= TOTAL_LIMIT
}

/// The bounded settings that every options value keeps.
pub open spec fn settings_wf(s: Seq<Option<Seq<char>>>) -> bool {
    &&& s.len() == 10
    &&& total_bytes(s) <= TOTAL_LIMIT
    &&& forall|i: int| 0 <= i < 10 ==> (#[trigger] s[i] matches Some(v) ==> no_nul(v) && encode_utf8(v).len() <= FIELD_LIMIT)
}

pub proof fn lemma_total_prefix(s: Seq<Option<Seq<char>>>, j: int)
    requires
        0 <= j <= s.len(),
    ensures
        total_bytes(s.take(j)) <= total_bytes(s),
    decreases s.len(),
{
    if j == s.len() {
        assert(s.take(j) =~= s);
    } else {
        lemma_total_prefix(s.drop_last(), j);
        assert(s.drop_last().take(j) =~= s.take(j));
    }
}

pub proof fn lemma_total_step(s: Seq<Option<Seq<char>>>, j: int)
    requires
        0 <= j < s.len(),
    ensures
        total_bytes(s.take(j + 1)) == total_bytes(s.take(j)) + entry_bytes(s[j]),
{
    assert(s.take(j + 1).drop_last() =~= s.take(j));
}

/// Replacing one entry changes the total by the difference of their sizes.
pub proof fn lemma_total_update(s: Seq<Option<Seq<char>>>, i: int, v: Option<Seq<char>>)
    requires
        0 <= i < s.len(),
    ensures
        total_bytes(s.update(i, v)) + entry_bytes(s[i]) == total_bytes(s) + entry_bytes(v),
    decreases s.len(),
{
    if i == s.len() - 1 {
        assert(s.update(i, v).drop_last() =~= s.drop_last());
    } else {
        lemma_total_update(s.drop_last(), i, v);
        assert(s.update(i, v).drop_last() =~= s.drop_last().update(i, v));
    }
}

/// Absent fields keep source tags; empty values remove a field from the output.
#[derive(Debug, Eq, PartialEq)]
pub struct MetadataExportOptions {
    fields: Vec<Option<String>>,
}

pub open spec fn text_view(o: Option<String>) -> Option<Seq<char>> {
    match o {
        Some(s) => Some(s@),
        None => None,
    }
}

/// Views of stored overrides.
pub open spec fn entries_view(fields: Seq<Option<String>>) -> Seq<Option<Seq<char>>> {
    Seq::new(fields.len(), |i: int| text_view(fields[i]))
}

impl View for MetadataExportOptions {
    type V = Seq<Option<Seq<char>>>;

    /// The override of each field, in export order.
    closed spec fn view(&self) -> Seq<Option<Seq<char>>> {
        entries_view(self.fields@)
    }
}

impl Clone for MetadataExportOptions {
    fn clone(&self) -> (r: Self)
        ensures
            r@ == self@,
    {
        proof { use_type_invariant(self); }
        let mut fields: Vec<Option<String>> = Vec::new();
        let mut i: usize = 0;
        while i < self.fields.len()
            invariant
                i <= self.fields@.len(),
                fields@.len() == i,
                forall|k: int| 0 <= k < i ==> text_view(#[trigger] fields@[k]) == text_view(self.fields@[k]),
            decreases self.fields@.len() - i,
        {
            let entry = match &self.fields[i] {
                Some(value) => Some(value.clone()),
                None => None,
            };
            fields.push(entry);
            i = i + 1;
        }
        assert(entries_view(fields@) =~= self@);
        MetadataExportOptions { fields }
    }
}

impl Default for MetadataExportOptions {
    fn default() -> (r: Self)
        ensures
            r@ == Seq::new(10, |i: int| None::<Seq<char>>),
    {
        let mut fields: Vec<Option<String>> = Vec::new();
        let mut i: usize = 0;
        while i < 10
            invariant
                i <= 10,
                fields@.len() == i,
                forall|k: int| 0 <= k < i ==> fields@[k] is None,
            decreases 10 - i,
        {
            fields.push(None);
            i = i + 1;
        }
        let ghost view = entries_view(fields@);
        proof {
            assert(view =~= Seq::new(10, |i: int| None::<Seq<char>>));
            lemma_zero_total(view);
            assert(settings_wf(view));
        }
        MetadataExportOptions { fields }
    }
}

proof fn lemma_zero_total(s: Seq<Option<Seq<char>>>)
    requires
        forall|i: int| 0 <= i < s.len() ==> s[i] is None,
    ensures
        total_bytes(s) == 0,
    decreases s.len(),
{
    if s.len() > 0 {
        lemma_zero_total(s.drop_last());
    }
}

impl MetadataExportOptions {
    #[verifier::type_invariant]
    closed spec fn inv(self) -> bool {
        settings_wf(self@)
    }

    /// The override of a field: `None` keeps the source value.
    pub fn get(&self, field: MetadataField) -> (r: Option<&str>)
        ensures
            settings_wf(self@),
            r is Some <==> self@[field_index(field)] is Some,
            r matches Some(t) ==> self@[field_index(field)] == Some(t@),
    {
        proof { use_type_invariant(self); }
        let i = field.index();
        match &self.fields[i] {
            Some(value) => Some(value.as_str()),
            None => None,
        }
    }

    fn others(&self, i: usize) -> (r: usize)
        requires
            i < 10,
        ensures
            r == other_bytes(self@, i as int),
            r <= TOTAL_LIMIT,
    {
        proof { use_type_invariant(self); }
        let ghost cleared = self@.update(i as int, None);
        proof {
            lemma_total_update(self@, i as int, None);
        }
        let mut total: usize = 0;
        let mut j: usize = 0;
        while j < 10
            invariant
                j <= 10,
                self.fields@.len() == 10,
                self@.len() == 10,
                i < 10,
                cleared == self@.update(i as int, None),
                total == total_bytes(cleared.take(j as int)),
                total_bytes(cleared) <= TOTAL_LIMIT,
            decreases 10 - j,
        {
            proof {
                lemma_total_step(cleared, j as int);
                lemma_total_prefix(cleared, j as int + 1);
            }
            assert(self@[j as int] == text_view(self.fields@[j as int]));
            if j != i {
                match &self.fields[j] {
                    Some(value) => {
                        total = total + value.as_str().as_bytes().len();
                    },
                    None => {},
                }
            }
            j = j + 1;
        }
        assert(cleared.take(10) =~= cleared);
        total
    }

    /// Sets a field's override: `Some("")` removes the field, `None` restores
    /// Keep. An update with a NUL, more than 1024 UTF-8 bytes, or more than
    /// 4096 bytes together with the other fields is refused and changes nothing.
    pub fn set(&mut self, field: MetadataField, value: Option<String>) -> (r: Result<(), ExportError>)
        ensures
            r is Ok <==> (value matches Some(v) ==> acceptable(old(self)@, field_index(field), v@)),
            r is Ok ==> final(self)@ == old(self)@.update(field_index(field), text_view(value)),
            r is Err ==> final(self)@ == old(self)@ && r matches Err(ExportError::Failed(_)),
            settings_wf(old(self)@) && settings_wf(final(self)@),
    {
        proof { use_type_invariant(&*self); }
        let i = field.index();
        let ghost before = self@;
        if let Some(text) = &value {
            let other = self.others(i);
            let t = text.as_str();
            let size = t.as_bytes().len();
            if contains_nul(t) || size > FIELD_LIMIT || other + size > TOTAL_LIMIT {
                return Err(ExportError::Failed(owned(
                    "Metadata text must contain no NUL and fit 1024 UTF-8 bytes per field / 4096 total",
                )));
            }
            assert(no_nul(text@));
            assert(encode_utf8(text@).len() <= FIELD_LIMIT);
            assert(other == other_bytes(before, i as int));
            assert(acceptable(before, i as int, text@));
        }
        assert(value matches Some(v) ==> acceptable(before, i as int, v@));
        let ghost new_entry = text_view(value);
        proof {
            lemma_total_update(before, i as int, new_entry);
            lemma_total_update(before, i as int, None);
            assert(before.update(i as int, None).update(i as int, new_entry) =~= before.update(i as int, new_entry));
            lemma_total_update(before.update(i as int, None), i as int, new_entry);
        }
        let mut current = MetadataExportOptions::default();
        std::mem::swap(self, &mut current);
        let mut fields = current.fields;
        assert(entries_view(fields@) == before);
        fields.set(i, value);
        proof {
            let after = before.update(i as int, new_entry);
            assert(total_bytes(before.update(i as int, None).update(i as int, new_entry)) == other_bytes(before, i as int) + entry_bytes(new_entry));
            if value is None {
                assert(other_bytes(before, i as int) <= total_bytes(before));
            }
            assert(total_bytes(after) <= TOTAL_LIMIT);
            assert forall|k: int| 0 <= k < 10 implies (#[trigger] after[k] matches Some(v) ==> no_nul(v) && encode_utf8(v).len() <= FIELD_LIMIT) by {
                if k == i as int {
                    assert(after[k] == new_entry);
                } else {
                    assert(after[k] == before[k]);
                }
            }
            assert(entries_view(fields@) =~= after);
            assert(settings_wf(after));
        }
        let updated = MetadataExportOptions { fields };
        assert(updated@ =~= before.update(i as int, new_entry));
        *self = updated;
        Ok(())
    }

    /// No field is overridden.
    pub fn is_empty(&self) -> (r: bool)
        ensures
            r == forall|i: int| 0 <= i < 10 ==> self@[i] is None,
    {
        proof { use_type_invariant(self); }
        let mut i: usize = 0;
        while i < 10
            invariant
                i <= 10,
                self.fields@.len() == 10,
                forall|k: int| 0 <= k < i ==> self@[k] is None,
            decreases 10 - i,
        {
            assert(self@[i as int] == text_view(self.fields@[i as int]));
            if self.fields[i].is_some() {
                return false;
            }
            i = i + 1;
        }
        true
    }
}


/// Characters of each string.
pub open spec fn strings_view(v: Seq<String>) -> Seq<Seq<char>> {
    Seq::new(v.len(), |i: int| v[i]@)
}

/// `key=value` for the field at position `i`.
pub open spec fn tag_text(i: int, v: Seq<char>) -> Seq<char> {
    key_text(field_at(i)) + "="@ + v
}

/// Encoder arguments that set the overrides of the first `n` fields, both
/// globally and on every stream.
pub open spec fn metadata_args(s: Seq<Option<Seq<char>>>, n: int) -> Seq<Seq<char>>
    decreases n,
{
    if n <= 0 {
        Seq::empty()
    } else {
        metadata_args(s, n - 1) + match s[n - 1] {
            Some(v) => seq!["-metadata:g"@, tag_text(n - 1, v), "-metadata:s"@, tag_text(n - 1, v)],
            None => Seq::empty(),
        }
    }
}

/// Whether the values found under a field's tag retain the requested text:
/// an empty request needs every found value empty, another needs at least one
/// value and every value equal to it.
pub open spec fn retained(expected: Seq<char>, found: Seq<Seq<char>>) -> bool {
    if expected.len() == 0 {
        forall|i: int| 0 <= i < found.len() ==> #[trigger] found[i].len() == 0
    } else {
        found.len() > 0 && forall|i: int| 0 <= i < found.len() ==> #[trigger] found[i] == expected
    }
}

/// Values of the tags whose name is `key` up to ASCII case, in order.
pub open spec fn values_for(tags: Seq<(String, String)>, key: Seq<char>) -> Seq<Seq<char>>
    decreases tags.len(),
{
    if tags.len() == 0 {
        Seq::empty()
    } else {
        let rest = values_for(tags.drop_last(), key);
        if same_ignoring_ascii_case(encode_utf8(tags.last().0@), encode_utf8(key)) {
            rest.push(tags.last().1@)
        } else {
            rest
        }
    }
}

/// The first field, in export order, whose override the found tags do not retain.
pub open spec fn first_unretained(s: Seq<Option<Seq<char>>>, tags: Seq<(String, String)>, n: int) -> Option<int>
    decreases n,
{
    if n <= 0 {
        None
    } else {
        match first_unretained(s, tags, n - 1) {
            Some(k) => Some(k),
            None => match s[n - 1] {
                Some(v) => if retained(v, values_for(tags, key_text(field_at(n - 1)))) { None } else { Some(n - 1) },
                None => None,
            },
        }
    }
}

/// Found values, equal up to case of their keys to the field's tag name.
pub fn tag_values(tags: &[(String, String)], key: &str) -> (r: Vec<String>)
    ensures
        strings_view(r@) == values_for(tags@, key@),
{
    let mut r: Vec<String> = Vec::new();
    let mut i: usize = 0;
    while i < tags.len()
        invariant
            i <= tags@.len(),
            strings_view(r@) == values_for(tags@.take(i as int), key@),
        decreases tags@.len() - i,
    {
        proof {
            assert(tags@.take(i as int + 1).drop_last() =~= tags@.take(i as int));
        }
        let ghost prev = r@;
        if eq_ignore_case(tags[i].0.as_str(), key) {
            r.push(tags[i].1.clone());
            assert(strings_view(r@) =~= strings_view(prev).push(tags@[i as int].1@));
        }
        i = i + 1;
    }
    assert(tags@.take(tags@.len() as int) =~= tags@);
    r
}

fn all_retained(expected: &str, found: &Vec<String>) -> (r: bool)
    ensures
        r == retained(expected@, strings_view(found@)),
{
    let empty = text_is_empty(expected);
    if !empty && found.len() == 0 {
        return false;
    }
    let mut i: usize = 0;
    while i < found.len()
        invariant
            i <= found@.len(),
            empty == (expected@.len() == 0),
            !empty ==> found@.len() > 0,
            forall|k: int| 0 <= k < i ==> if empty { (#[trigger] found@[k])@.len() == 0 } else { found@[k]@ == expected@ },
        decreases found@.len() - i,
    {
        let ok = if empty { text_is_empty(found[i].as_str()) } else { same_text(found[i].as_str(), expected) };
        if !ok {
            assert(!retained(expected@, strings_view(found@))) by {
                assert(strings_view(found@)[i as int] == found@[i as int]@);
            }
            return false;
        }
        i = i + 1;
    }
    assert(retained(expected@, strings_view(found@))) by {
        assert forall|k: int| 0 <= k < found@.len() implies if expected@.len() == 0 { (#[trigger] strings_view(found@)[k]).len() == 0 } else { strings_view(found@)[k] == expected@ } by {
            assert(strings_view(found@)[k] == found@[k]@);
        }
    }
    true
}

impl MetadataExportOptions {
    /// Encoder arguments that write every override literally, in field order.
    pub fn arguments(&self) -> (r: Vec<String>)
        ensures
            strings_view(r@) == metadata_args(self@, 10),
    {
        proof { use_type_invariant(self); }
        let mut r: Vec<String> = Vec::new();
        let mut i: usize = 0;
        while i < 10
            invariant
                i <= 10,
                self.fields@.len() == 10,
                strings_view(r@) == metadata_args(self@, i as int),
            decreases 10 - i,
        {
            let ghost prev = r@;
            assert(self@[i as int] == text_view(self.fields@[i as int]));
            if let Some(value) = &self.fields[i] {
                let mut tag = owned(MetadataField::at(i).key());
                push_str(&mut tag, "=");
                push_str(&mut tag, value.as_str());
                r.push(owned("-metadata:g"));
                r.push(tag.clone());
                r.push(owned("-metadata:s"));
                r.push(tag);
                assert(strings_view(r@) =~= strings_view(prev) + seq!["-metadata:g"@, tag_text(i as int, value@), "-metadata:s"@, tag_text(i as int, value@)]);
            } else {
                assert(strings_view(r@) =~= strings_view(prev) + Seq::<Seq<char>>::empty());
            }
            i = i + 1;
        }
        r
    }

    /// Checks the tags read back from an encoded file (the container's, then
    /// every stream's): each override must be retained under its tag name.
    pub fn verify_tags(&self, tags: &[(String, String)]) -> (r: Result<(), ExportError>)
        ensures
            r is Ok <==> first_unretained(self@, tags@, 10) is None,
            r matches Err(e) ==> e is Failed,
    {
        proof { use_type_invariant(self); }
        let mut i: usize = 0;
        while i < 10
            invariant
                i <= 10,
                self.fields@.len() == 10,
                first_unretained(self@, tags@, i as int) is None,
            decreases 10 - i,
        {
            assert(self@[i as int] == text_view(self.fields@[i as int]));
            if let Some(expected) = &self.fields[i] {
                let key = MetadataField::at(i).key();
                let found = tag_values(tags, key);
                if !all_retained(expected.as_str(), &found) {
                    proof { lemma_first_unretained_stays(self@, tags@, i as int + 1, 10); }
                    let mut message = owned("Output format did not retain the requested '");
                    push_str(&mut message, key);
                    push_str(&mut message, "' metadata; existing target unchanged");
                    return Err(ExportError::Failed(message));
                }
            }
            i = i + 1;
        }
        Ok(())
    }
}

proof fn lemma_first_unretained_stays(s: Seq<Option<Seq<char>>>, tags: Seq<(String, String)>, m: int, n: int)
    requires
        0 <= m <= n,
        first_unretained(s, tags, m) is Some,
    ensures
        first_unretained(s, tags, n) is Some,
    decreases n - m,
{
    if m < n {
        lemma_first_unretained_stays(s, tags, m, n - 1);
    }
}
} // verus!

verus! {

/// The first tag, from position `k` on, whose key is `key` up to ASCII case.
pub open spec fn first_tag(tags: Seq<(String, String)>, key: Seq<char>, k: int) -> Option<int>
    decreases tags.len() - k,
{
    if k < 0 || k >= tags.len() {
        None
    } else if same_ignoring_ascii_case(encode_utf8(tags[k].0@), encode_utf8(key)) {
        Some(k)
    } else {
        first_tag(tags, key, k + 1)
    }
}

/// The fields among the first `n` that a tag list holds, with the value of
/// the first matching tag of each, in field order.
pub open spec fn found_fields(tags: Seq<(String, String)>, n: int) -> Seq<(MetadataField, Seq<char>)>
    decreases n,
{
    if n <= 0 {
        Seq::empty()
    } else {
        let rest = found_fields(tags, n - 1);
        match first_tag(tags, key_text(field_at(n - 1)), 0) {
            Some(i) => rest.push((field_at(n - 1), tags[i].1@)),
            None => rest,
        }
    }
}

fn find_tag(tags: &[(String, String)], key: &str) -> (r: Option<usize>)
    ensures
        r matches Some(i) ==> first_tag(tags@, key@, 0) == Some(i as int) && i < tags@.len(),
        r is None ==> first_tag(tags@, key@, 0) is None,
{
    let mut k: usize = 0;
    while k < tags.len()
        invariant
            k <= tags@.len(),
            first_tag(tags@, key@, 0) == first_tag(tags@, key@, k as int),
        decreases tags@.len() - k,
    {
        if eq_ignore_case(tags[k].0.as_str(), key) {
            return Some(k);
        }
        k = k + 1;
    }
    None
}

/// The display values of one tag list: for each field in order, the first
/// tag whose key is the field's key up to ASCII case, bounded to 1024
/// bytes at a character boundary.
pub fn source_values(scope: &'static str, tags: &[(String, String)]) -> (r: Vec<MetadataSourceValue>)
    ensures
        r@.len() == found_fields(tags@, 10).len(),
        forall|j: int| 0 <= j < r@.len() ==> {
            let f = #[trigger] found_fields(tags@, 10)[j];
            &&& r@[j].field == f.0
            &&& r@[j].scope@ == scope@
            &&& encode_utf8(r@[j].value@) == encode_utf8(f.1).take(floor_boundary(encode_utf8(f.1), FIELD_LIMIT as int))
            &&& r@[j].truncated == (encode_utf8(f.1).len() > FIELD_LIMIT)
        },
{
    let mut r: Vec<MetadataSourceValue> = Vec::new();
    let mut k: usize = 0;
    while k < 10
        invariant
            k <= 10,
            r@.len() == found_fields(tags@, k as int).len(),
            forall|j: int| 0 <= j < r@.len() ==> {
                let f = #[trigger] found_fields(tags@, k as int)[j];
                &&& r@[j].field == f.0
                &&& r@[j].scope@ == scope@
                &&& encode_utf8(r@[j].value@) == encode_utf8(f.1).take(floor_boundary(encode_utf8(f.1), FIELD_LIMIT as int))
                &&& r@[j].truncated == (encode_utf8(f.1).len() > FIELD_LIMIT)
            },
        decreases 10 - k,
    {
        let field = MetadataField::at(k);
        let ghost before = found_fields(tags@, k as int);
        match find_tag(tags, field.key()) {
            Some(i) => {
                let (value, truncated) = bounded_prefix(tags[i].1.as_str(), FIELD_LIMIT);
                r.push(MetadataSourceValue { field, scope, value, truncated });
                assert(found_fields(tags@, k as int + 1) == before.push((field, tags@[i as int].1@)));
            },
            None => {
                assert(found_fields(tags@, k as int + 1) == before);
            },
        }
        k = k + 1;
    }
    r
}

} // verus!
