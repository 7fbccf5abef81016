//! The tag model: the thirteen type identifiers, the tag tree and the compound
//! that maps names to tags.

use vstd::prelude::*;

verus! {

/// The numerical representation of Tag types.
///
/// Used within the encode/decode process and hence is returned within errors.
#[derive(Debug, Clone, Copy, PartialEq, Eq, PartialOrd, Structural)]
#[allow(non_camel_case_types)]
pub enum TagIdent {
    /// Signifies the end of a compound (0). Never carried as a value.
    TAG_End,
    /// A single signed byte (1).
    TAG_Byte,
    /// A signed, big endian 16 bit integer (2).
    TAG_Short,
    /// A signed, big endian 32 bit integer (3).
    TAG_Int,
    /// A signed, big endian 64 bit integer (4).
    TAG_Long,
    /// A big endian IEEE-754 single-precision number (5).
    TAG_Float,
    /// A big endian IEEE-754 double-precision number (6).
    TAG_Double,
    /// A length-prefixed array of signed bytes (7).
    TAG_Byte_Array,
    /// A length-prefixed modified UTF-8 string (8).
    TAG_String,
    /// A list of nameless tags, all of the same type (9).
    TAG_List,
    /// A list of named tags, closed by an end marker (10).
    TAG_Compound,
    /// A length-prefixed array of signed 32 bit integers (11).
    TAG_Int_Array,
    /// A length-prefixed array of signed 64 bit integers (12).
    TAG_Long_Array,
}

impl TagIdent {
    /// The byte that stands for this identifier on the wire.
    pub open spec fn code(self) -> u8 {
        match self {
            TagIdent::TAG_End => 0,
            TagIdent::TAG_Byte => 1,
            TagIdent::TAG_Short => 2,
            TagIdent::TAG_Int => 3,
            TagIdent::TAG_Long => 4,
            TagIdent::TAG_Float => 5,
            TagIdent::TAG_Double => 6,
            TagIdent::TAG_Byte_Array => 7,
            TagIdent::TAG_String => 8,
            TagIdent::TAG_List => 9,
            TagIdent::TAG_Compound => 10,
            TagIdent::TAG_Int_Array => 11,
            TagIdent::TAG_Long_Array => 12,
        }
    }

    /// The identifier that a wire byte stands for, if any.
    pub open spec fn from_code(value: u8) -> Option<TagIdent> {
        if value == 0 {
            Some(TagIdent::TAG_End)
        } else if value == 1 {
            Some(TagIdent::TAG_Byte)
        } else if value == 2 {
            Some(TagIdent::TAG_Short)
        } else if value == 3 {
            Some(TagIdent::TAG_Int)
        } else if value == 4 {
            Some(TagIdent::TAG_Long)
        } else if value == 5 {
            Some(TagIdent::TAG_Float)
        } else if value == 6 {
            Some(TagIdent::TAG_Double)
        } else if value == 7 {
            Some(TagIdent::TAG_Byte_Array)
        } else if value == 8 {
            Some(TagIdent::TAG_String)
        } else if value == 9 {
            Some(TagIdent::TAG_List)
        } else if value == 10 {
            Some(TagIdent::TAG_Compound)
        } else if value == 11 {
            Some(TagIdent::TAG_Int_Array)
        } else if value == 12 {
            Some(TagIdent::TAG_Long_Array)
        } else {
            None
        }
    }

    /// The display form of the identifier, as it appears in error messages.
    pub open spec fn name(self) -> Seq<char> {
        match self {
            TagIdent::TAG_End => "TAG_End"@,
            TagIdent::TAG_Byte => "TAG_Byte"@,
            TagIdent::TAG_Short => "TAG_Short"@,
            TagIdent::TAG_Int => "TAG_Int"@,
            TagIdent::TAG_Long => "TAG_Long"@,
            TagIdent::TAG_Float => "TAG_Float"@,
            TagIdent::TAG_Double => "TAG_Double"@,
            TagIdent::TAG_Byte_Array => "TAG_ByteArray"@,
            TagIdent::TAG_String => "TAG_String"@,
            TagIdent::TAG_List => "TAG_List"@,
            TagIdent::TAG_Compound => "TAG_Compound"@,
            TagIdent::TAG_Int_Array => "TAG_IntArray"@,
            TagIdent::TAG_Long_Array => "TAG_LongArray"@,
        }
    }

    /// Parse a `u8` into a `TagIdent`.
    pub fn parse(value: &u8) -> (r: Option<TagIdent>)
        ensures
            r == TagIdent::from_code(*value),
            r is Some <==> *value <= 12,
    {
        match *value {
            0 => Some(TagIdent::TAG_End),
            1 => Some(TagIdent::TAG_Byte),
            2 => Some(TagIdent::TAG_Short),
            3 => Some(TagIdent::TAG_Int),
            4 => Some(TagIdent::TAG_Long),
            5 => Some(TagIdent::TAG_Float),
            6 => Some(TagIdent::TAG_Double),
            7 => Some(TagIdent::TAG_Byte_Array),
            8 => Some(TagIdent::TAG_String),
            9 => Some(TagIdent::TAG_List),
            10 => Some(TagIdent::TAG_Compound),
            11 => Some(TagIdent::TAG_Int_Array),
            12 => Some(TagIdent::TAG_Long_Array),
            _ => None,
        }
    }

    /// The wire byte of the identifier.
    pub fn id(&self) -> (r: u8)
        ensures
            r == self.code(),
            r <= 12,
    {
        match self {
            TagIdent::TAG_End => 0,
            TagIdent::TAG_Byte => 1,
            TagIdent::TAG_Short => 2,
            TagIdent::TAG_Int => 3,
            TagIdent::TAG_Long => 4,
            TagIdent::TAG_Float => 5,
            TagIdent::TAG_Double => 6,
            TagIdent::TAG_Byte_Array => 7,
            TagIdent::TAG_String => 8,
            TagIdent::TAG_List => 9,
            TagIdent::TAG_Compound => 10,
            TagIdent::TAG_Int_Array => 11,
            TagIdent::TAG_Long_Array => 12,
        }
    }

    /// The display form of the identifier.
    pub fn to_string(&self) -> (r: String)
        ensures
            r@ == self.name(),
    {
        match self {
            TagIdent::TAG_End => String::from_str("TAG_End"),
            TagIdent::TAG_Byte => String::from_str("TAG_Byte"),
            TagIdent::TAG_Short => String::from_str("TAG_Short"),
            TagIdent::TAG_Int => String::from_str("TAG_Int"),
            TagIdent::TAG_Long => String::from_str("TAG_Long"),
            TagIdent::TAG_Float => String::from_str("TAG_Float"),
            TagIdent::TAG_Double => String::from_str("TAG_Double"),
            TagIdent::TAG_Byte_Array => String::from_str("TAG_ByteArray"),
            TagIdent::TAG_String => String::from_str("TAG_String"),
            TagIdent::TAG_List => String::from_str("TAG_List"),
            TagIdent::TAG_Compound => String::from_str("TAG_Compound"),
            TagIdent::TAG_Int_Array => String::from_str("TAG_IntArray"),
            TagIdent::TAG_Long_Array => String::from_str("TAG_LongArray"),
        }
    }

    /// Every identifier is found again from its wire byte, and only the bytes
    /// 0 to 12 stand for an identifier.
    pub proof fn lemma_code_parses_back(self)
        ensures
            TagIdent::from_code(self.code()) == Some(self),
            self.code() <= 12,
    {
    }

    /// A byte that stands for an identifier is that identifier's wire byte.
    pub proof fn lemma_from_code_is_code(value: u8)
        ensures
            TagIdent::from_code(value) is Some <==> value <= 12,
            TagIdent::from_code(value) matches Some(ident) ==> ident.code() == value,
    {
    }
}

/// The most lists and compounds that may stand one inside the other, in a
/// document or in a tag that is read or written on its own.
pub const MAX_DEPTH: usize = 512;

/// A compound: named tags, each name at most once, kept in the order in which
/// the names first came in.
#[derive(Debug)]
pub struct Compound {
    entries: Vec<(String, Tag)>,
}

/// A NBT Tag, one node of the tree. `Float` and `Double` hold the IEEE-754 bit
/// pattern of their number, which is what the wire carries.
#[derive(Debug)]
pub enum Tag {
    Byte(i8),
    Short(i16),
    Int(i32),
    Long(i64),
    Float(u32),
    Double(u64),
    ByteArray(Vec<i8>),
    String(String),
    List(Vec<Tag>),
    Compound(Compound),
    IntArray(Vec<i32>),
    LongArray(Vec<i64>),
}

/// What a tag means: strings are their characters, lists are sequences and a
/// compound is a map from names to values, in which order plays no part.
pub enum TagView {
    Byte(i8),
    Short(i16),
    Int(i32),
    Long(i64),
    Float(u32),
    Double(u64),
    ByteArray(Seq<i8>),
    String(Seq<char>),
    List(Seq<TagView>),
    Compound(Map<Seq<char>, TagView>),
    IntArray(Seq<i32>),
    LongArray(Seq<i64>),
}

impl TagView {
    /// The identifier of the variant.
    pub open spec fn ident(self) -> TagIdent {
        match self {
            TagView::Byte(_) => TagIdent::TAG_Byte,
            TagView::Short(_) => TagIdent::TAG_Short,
            TagView::Int(_) => TagIdent::TAG_Int,
            TagView::Long(_) => TagIdent::TAG_Long,
            TagView::Float(_) => TagIdent::TAG_Float,
            TagView::Double(_) => TagIdent::TAG_Double,
            TagView::ByteArray(_) => TagIdent::TAG_Byte_Array,
            TagView::String(_) => TagIdent::TAG_String,
            TagView::List(_) => TagIdent::TAG_List,
            TagView::Compound(_) => TagIdent::TAG_Compound,
            TagView::IntArray(_) => TagIdent::TAG_Int_Array,
            TagView::LongArray(_) => TagIdent::TAG_Long_Array,
        }
    }
}

/// No name occurs twice among the entries.
pub open spec fn distinct_names(entries: Seq<(String, Tag)>) -> bool {
    forall|i: int, j: int|
        0 <= i < j < entries.len() ==> (#[trigger] entries[i]).0@ != (#[trigger] entries[j]).0@
}

/// Some entry carries the name.
pub open spec fn has_name(entries: Seq<(String, Tag)>, name: Seq<char>) -> bool {
    exists|i: int| 0 <= i < entries.len() && (#[trigger] entries[i]).0@ == name
}

/// The values of a sequence of tags, one for one.
pub open spec fn items_view(items: Seq<Tag>) -> Seq<TagView>
    decreases items, 1int,
{
    if items.len() == 0 {
        Seq::empty()
    } else {
        items_view(items.drop_last()).push(tag_view(items.last()))
    }
}

/// The map that a sequence of entries stands for. Where a name occurs twice
/// the later entry counts.
pub open spec fn entries_view(entries: Seq<(String, Tag)>) -> Map<Seq<char>, TagView>
    decreases entries, 1int,
{
    if entries.len() == 0 {
        Map::empty()
    } else {
        entries_view(entries.drop_last()).insert(entries.last().0@, tag_view(entries.last().1))
    }
}

/// The value of a tag.
pub open spec fn tag_view(tag: Tag) -> TagView
    decreases tag, 0int,
{
    match tag {
        Tag::Byte(v) => TagView::Byte(v),
        Tag::Short(v) => TagView::Short(v),
        Tag::Int(v) => TagView::Int(v),
        Tag::Long(v) => TagView::Long(v),
        Tag::Float(v) => TagView::Float(v),
        Tag::Double(v) => TagView::Double(v),
        Tag::ByteArray(v) => TagView::ByteArray(v@),
        Tag::String(s) => TagView::String(s@),
        Tag::List(v) => TagView::List(items_view(v@)),
        Tag::Compound(c) => {
            proof {
                c.lemma_entries_smaller();
            }
            TagView::Compound(entries_view(c.entries()))
        },
        Tag::IntArray(v) => TagView::IntArray(v@),
        Tag::LongArray(v) => TagView::LongArray(v@),
    }
}

impl View for Tag {
    type V = TagView;

    open spec fn view(&self) -> TagView {
        tag_view(*self)
    }
}

impl View for Compound {
    type V = Map<Seq<char>, TagView>;

    open spec fn view(&self) -> Map<Seq<char>, TagView> {
        entries_view(self.entries())
    }
}

/// The view of a sequence of tags has the view of each tag at its place.
pub proof fn lemma_items_view(items: Seq<Tag>)
    ensures
        items_view(items).len() == items.len(),
        forall|i: int| 0 <= i < items.len() ==> (#[trigger] items_view(items)[i]) == items[i]@,
    decreases items.len(),
{
    if items.len() > 0 {
        lemma_items_view(items.drop_last());
    }
}

/// Adding a tag at the end adds its view at the end.
pub proof fn lemma_items_view_push(items: Seq<Tag>, tag: Tag)
    ensures
        items_view(items.push(tag)) == items_view(items).push(tag@),
{
    assert(items.push(tag).drop_last() =~= items);
}

/// Two sequences of tags have one view exactly when they are as long as each
/// other and agree, view for view.
pub proof fn lemma_items_view_equal(a: Seq<Tag>, b: Seq<Tag>)
    ensures
        items_view(a) == items_view(b) <==> (a.len() == b.len() && forall|i: int|
            0 <= i < a.len() ==> (#[trigger] a[i])@ == b[i]@),
{
    lemma_items_view(a);
    lemma_items_view(b);
    if a.len() == b.len() && (forall|i: int| 0 <= i < a.len() ==> (#[trigger] a[i])@ == b[i]@) {
        assert(items_view(a) =~= items_view(b));
    }
    if items_view(a) == items_view(b) {
        assert forall|i: int| 0 <= i < a.len() implies (#[trigger] a[i])@ == b[i]@ by {
            assert(items_view(a)[i] == items_view(b)[i]);
        }
    }
}

/// The names of the map are the names of the entries, and where no name occurs
/// twice each entry's value is found under its name.
pub proof fn lemma_entries_view(entries: Seq<(String, Tag)>)
    ensures
        forall|name: Seq<char>| #[trigger]
            entries_view(entries).dom().contains(name) <==> has_name(entries, name),
        distinct_names(entries) ==> forall|i: int|
            0 <= i < entries.len() ==> entries_view(entries)[(#[trigger] entries[i]).0@]
                == entries[i].1@,
        entries_view(entries).dom().finite(),
    decreases entries.len(),
{
    if entries.len() > 0 {
        let front = entries.drop_last();
        let last = entries.last();
        lemma_entries_view(front);
        assert forall|name: Seq<char>| #[trigger]
            entries_view(entries).dom().contains(name) <==> has_name(entries, name) by {
            if has_name(front, name) {
                let i = choose|i: int| 0 <= i < front.len() && (#[trigger] front[i]).0@ == name;
                assert(entries[i].0@ == name);
            }
            if name == last.0@ {
                assert(entries[entries.len() - 1].0@ == name);
            }
            if has_name(entries, name) {
                let i = choose|i: int| 0 <= i < entries.len() && (#[trigger] entries[i]).0@ == name;
                if i < front.len() {
                    assert(front[i].0@ == name);
                }
            }
        }
        if distinct_names(entries) {
            assert(distinct_names(front)) by {
                assert forall|i: int, j: int| 0 <= i < j < front.len() implies (#[trigger] front[i]).0@
                    != (#[trigger] front[j]).0@ by {
                    assert(entries[i].0@ != entries[j].0@);
                }
            }
            assert forall|i: int| 0 <= i < entries.len() implies entries_view(entries)[(
            #[trigger] entries[i]).0@] == entries[i].1@ by {
                if i < front.len() {
                    assert(front[i] == entries[i]);
                    assert(entries[i].0@ != entries[entries.len() - 1].0@);
                }
            }
        }
    } else {
        assert forall|name: Seq<char>| #[trigger]
            entries_view(entries).dom().contains(name) <==> has_name(entries, name) by {}
    }
}

/// Where no name occurs twice, the map has as many names as there are
/// entries.
pub proof fn lemma_entries_count(entries: Seq<(String, Tag)>)
    requires
        distinct_names(entries),
    ensures
        entries_view(entries).dom().finite(),
        entries_view(entries).dom().len() == entries.len(),
    decreases entries.len(),
{
    lemma_entries_view(entries);
    if entries.len() > 0 {
        let front = entries.drop_last();
        assert(distinct_names(front)) by {
            assert forall|i: int, j: int| 0 <= i < j < front.len() implies (#[trigger] front[i]).0@
                != (#[trigger] front[j]).0@ by {
                assert(entries[i].0@ != entries[j].0@);
            }
        }
        lemma_entries_count(front);
        lemma_entries_view(front);
        let name = entries.last().0@;
        assert(!entries_view(front).dom().contains(name)) by {
            if has_name(front, name) {
                let i = choose|i: int| 0 <= i < front.len() && (#[trigger] front[i]).0@ == name;
                assert(entries[i].0@ != entries[entries.len() - 1].0@);
            }
        }
        assert(entries_view(entries).dom() =~= entries_view(front).dom().insert(name));
    }
}

impl Compound {
    #[verifier::type_invariant]
    spec fn names_are_distinct(&self) -> bool {
        distinct_names(self.entries@)
    }

    /// The entries in their order: what the encoder writes, one after the other.
    pub closed spec fn entries(&self) -> Seq<(String, Tag)> {
        self.entries@
    }

    /// The entries of a compound are part of it: a function may descend from a
    /// compound into its entries.
    pub proof fn lemma_entries_smaller(&self)
        ensures
            decreases_to!(self => self.entries()),
    {
    }

    /// An empty compound.
    pub fn new() -> (r: Compound)
        ensures
            r.entries() == Seq::<(String, Tag)>::empty(),
            r@ == Map::<Seq<char>, TagView>::empty(),
    {
        Compound { entries: Vec::new() }
    }

    /// The number of entries, which is the number of names.
    pub fn len(&self) -> (r: usize)
        ensures
            r == self.entries().len(),
            r == self@.dom().len(),
    {
        proof {
            use_type_invariant(self);
            lemma_entries_count(self.entries@);
        }
        self.entries.len()
    }

    /// Whether the compound has no entry.
    pub fn is_empty(&self) -> (r: bool)
        ensures
            r == (self.entries().len() == 0),
            r == (self@ == Map::<Seq<char>, TagView>::empty()),
    {
        proof {
            lemma_entries_view(self.entries@);
            if self.entries@.len() > 0 {
                assert(has_name(self.entries@, self.entries@[0].0@));
                assert(self@.dom().contains(self.entries@[0].0@));
            }
        }
        self.entries.len() == 0
    }

    /// The entries in their order, each name once.
    pub fn tags(&self) -> (r: &Vec<(String, Tag)>)
        ensures
            r@ == self.entries(),
            distinct_names(r@),
    {
        proof {
            use_type_invariant(self);
        }
        &self.entries
    }

    /// The entries in their order, each name once, handed over.
    pub fn map(self) -> (r: Vec<(String, Tag)>)
        ensures
            r@ == self.entries(),
            distinct_names(r@),
    {
        proof {
            use_type_invariant(&self);
        }
        self.entries
    }

    /// Where the name stands among the entries, if it does.
    fn position(&self, key: &String) -> (r: Option<usize>)
        ensures
            match r {
                Some(i) => i < self.entries().len() && self.entries()[i as int].0@ == key@,
                None => !has_name(self.entries(), key@),
            },
    {
        let mut i: usize = 0;
        while i < self.entries.len()
            invariant
                i <= self.entries.len(),
                forall|k: int| 0 <= k < i ==> (#[trigger] self.entries@[k]).0@ != key@,
            decreases self.entries.len() - i,
        {
            if self.entries[i].0 == *key {
                return Some(i);
            }
            i += 1;
        }
        None
    }

    /// Whether the compound has an entry of that name.
    pub fn contains_key(&self, key: &str) -> (r: bool)
        ensures
            r == self@.dom().contains(key@),
    {
        let key = String::from_str(key);
        proof {
            lemma_entries_view(self.entries@);
        }
        self.position(&key).is_some()
    }

    /// The tag that stands under a name, if one does.
    pub open spec fn tag_under(&self, name: Seq<char>) -> Option<Tag> {
        if has_name(self.entries(), name) {
            Some(
                self.entries()[choose|i: int|
                    0 <= i < self.entries().len() && (#[trigger] self.entries()[i]).0@ == name].1,
            )
        } else {
            None
        }
    }

    /// Where no name occurs twice, the tag under the name of an entry is the
    /// tag of that entry.
    pub proof fn lemma_tag_under(&self, i: int)
        requires
            distinct_names(self.entries()),
            0 <= i < self.entries().len(),
        ensures
            self.tag_under(self.entries()[i].0@) == Some(self.entries()[i].1),
    {
        let name = self.entries()[i].0@;
        assert(has_name(self.entries(), name));
        let j = choose|j: int|
            0 <= j < self.entries().len() && (#[trigger] self.entries()[j]).0@ == name;
        if j < i {
            assert(self.entries()[j].0@ != self.entries()[i].0@);
        }
        if i < j {
            assert(self.entries()[i].0@ != self.entries()[j].0@);
        }
    }

    /// The tag under a name.
    pub fn get_tag(&self, key: &str) -> (r: Option<&Tag>)
        ensures
            match r {
                Some(tag) => self@.dom().contains(key@) && tag@ == self@[key@] && self.tag_under(
                    key@,
                ) == Some(*tag),
                None => !self@.dom().contains(key@) && self.tag_under(key@) is None,
            },
    {
        let key = String::from_str(key);
        proof {
            use_type_invariant(self);
            lemma_entries_view(self.entries@);
        }
        match self.position(&key) {
            Some(i) => {
                proof {
                    assert(has_name(self.entries@, self.entries@[i as int].0@));
                    self.lemma_tag_under(i as int);
                }
                Some(&self.entries[i].1)
            },
            None => None,
        }
    }

    /// Puts a tag under a name and hands back the tag that stood there. A new
    /// name goes to the end; a name that is there keeps its place.
    pub fn insert_tag(&mut self, key: &str, tag: Tag) -> (r: Option<Tag>)
        ensures
            final(self)@ == old(self)@.insert(key@, tag@),
            match r {
                Some(prior) => old(self)@.dom().contains(key@) && prior@ == old(self)@[key@]
                    && old(self).tag_under(key@) == Some(prior),
                None => !old(self)@.dom().contains(key@) && old(self).tag_under(key@) is None,
            },
            match r {
                Some(prior) => exists|i: int|
                    0 <= i < old(self).entries().len() && (#[trigger] old(self).entries()[i])
                        == (old(self).entries()[i].0, prior) && old(self).entries()[i].0@ == key@
                        && final(self).entries().len() == old(self).entries().len()
                        && final(self).entries()[i].1 == tag && final(self).entries()[i].0@ == key@
                        && forall|j: int|
                        0 <= j < old(self).entries().len() && j != i ==> final(self).entries()[j]
                            == old(self).entries()[j],
                None => final(self).entries().len() == old(self).entries().len() + 1
                    && final(self).entries().drop_last() == old(self).entries()
                    && final(self).entries().last().0@ == key@ && final(self).entries().last().1
                    == tag,
            },
    {
        let key = String::from_str(key);
        proof {
            use_type_invariant(&*self);
            lemma_entries_view(self.entries@);
        }
        let found = self.position(&key);
        let ghost before = self.entries@;
        proof {
            if let Some(i) = found {
                self.lemma_tag_under(i as int);
            }
        }
        let mut entries: Vec<(String, Tag)> = Vec::new();
        std::mem::swap(&mut entries, &mut self.entries);
        let r = match found {
            Some(i) => {
                let mut entry = (key, tag);
                entries.set_and_swap(i, &mut entry);
                proof {
                    let after = entries@;
                    assert(has_name(before, before[i as int].0@));
                    assert(distinct_names(after)) by {
                        assert forall|a: int, b: int| 0 <= a < b < after.len() implies (
                        #[trigger] after[a]).0@ != (#[trigger] after[b]).0@ by {
                            assert(before[a].0@ != before[b].0@);
                        }
                    }
                    lemma_entries_view(after);
                    assert(entries_view(after) =~= entries_view(before).insert(key@, tag@)) by {
                        assert forall|name: Seq<char>|
                            entries_view(after).dom().contains(name) <==> entries_view(
                                before,
                            ).insert(key@, tag@).dom().contains(name) by {
                            if has_name(after, name) {
                                let k = choose|k: int|
                                    0 <= k < after.len() && (#[trigger] after[k]).0@ == name;
                                assert(before[k].0@ == name);
                            }
                            if has_name(before, name) {
                                let k = choose|k: int|
                                    0 <= k < before.len() && (#[trigger] before[k]).0@ == name;
                                assert(after[k].0@ == name);
                            }
                            if name == key@ {
                                assert(after[i as int].0@ == name);
                            }
                        }
                        assert forall|name: Seq<char>|
                            entries_view(after).dom().contains(name) implies entries_view(
                            after,
                        )[name] == entries_view(before).insert(key@, tag@)[name] by {
                            let k = choose|k: int|
                                0 <= k < after.len() && (#[trigger] after[k]).0@ == name;
                            if k != i {
                                assert(after[k] == before[k]);
                                assert(before[k].0@ != before[i as int].0@);
                            }
                        }
                    }
                }
                Some(entry.1)
            },
            None => {
                entries.push((key, tag));
                proof {
                    let after = entries@;
                    assert(after.drop_last() =~= before);
                    assert(distinct_names(after)) by {
                        assert forall|a: int, b: int| 0 <= a < b < after.len() implies (
                        #[trigger] after[a]).0@ != (#[trigger] after[b]).0@ by {
                            if b < before.len() {
                                assert(before[a].0@ != before[b].0@);
                            } else {
                                assert(before[a].0@ != key@);
                            }
                        }
                    }
                }
                None
            },
        };
        self.entries = entries;
        r
    }

    /// Takes the entry of a name out and hands back its tag.
    pub fn remove_tag(&mut self, key: &str) -> (r: Option<Tag>)
        ensures
            final(self)@ == old(self)@.remove(key@),
            match r {
                Some(prior) => old(self)@.dom().contains(key@) && prior@ == old(self)@[key@]
                    && old(self).tag_under(key@) == Some(prior),
                None => !old(self)@.dom().contains(key@) && old(self).tag_under(key@) is None
                    && final(self).entries() == old(self).entries(),
            },
    {
        let key = String::from_str(key);
        proof {
            use_type_invariant(&*self);
            lemma_entries_view(self.entries@);
        }
        let found = self.position(&key);
        let ghost before = self.entries@;
        proof {
            if let Some(i) = found {
                self.lemma_tag_under(i as int);
            }
        }
        match found {
            Some(i) => {
                let mut entries: Vec<(String, Tag)> = Vec::new();
                std::mem::swap(&mut entries, &mut self.entries);
                let entry = entries.remove(i);
                proof {
                    let after = entries@;
                    assert(has_name(before, before[i as int].0@));
                    assert(distinct_names(after)) by {
                        assert forall|a: int, b: int| 0 <= a < b < after.len() implies (
                        #[trigger] after[a]).0@ != (#[trigger] after[b]).0@ by {
                            let a0 = if a < i { a } else { a + 1 };
                            let b0 = if b < i { b } else { b + 1 };
                            assert(after[a] == before[a0]);
                            assert(after[b] == before[b0]);
                            assert(before[a0].0@ != before[b0].0@);
                        }
                    }
                    lemma_entries_view(after);
                    assert(entries_view(after) =~= entries_view(before).remove(key@)) by {
                        assert forall|name: Seq<char>|
                            entries_view(after).dom().contains(name) <==> entries_view(
                                before,
                            ).remove(key@).dom().contains(name) by {
                            if has_name(after, name) {
                                let k = choose|k: int|
                                    0 <= k < after.len() && (#[trigger] after[k]).0@ == name;
                                let k0 = if k < i { k } else { k + 1 };
                                assert(after[k] == before[k0]);
                                assert(before[k0].0@ == name);
                                assert(before[k0].0@ != before[i as int].0@);
                            }
                            if has_name(before, name) && name != key@ {
                                let k = choose|k: int|
                                    0 <= k < before.len() && (#[trigger] before[k]).0@ == name;
                                let k1 = if k < i { k } else { k - 1 };
                                assert(after[k1] == before[k]);
                                assert(after[k1].0@ == name);
                            }
                        }
                        assert forall|name: Seq<char>|
                            entries_view(after).dom().contains(name) implies entries_view(
                            after,
                        )[name] == entries_view(before).remove(key@)[name] by {
                            let k = choose|k: int|
                                0 <= k < after.len() && (#[trigger] after[k]).0@ == name;
                            let k0 = if k < i { k } else { k + 1 };
                            assert(after[k] == before[k0]);
                            assert(before[k0].0@ == name);
                        }
                    }
                }
                self.entries = entries;
                Some(entry.1)
            },
            None => {
                proof {
                    assert(entries_view(before).remove(key@) =~= entries_view(before));
                }
                None
            },
        }
    }
}

impl Compound {
    /// Whether two compounds hold the same tags under the same names, whatever
    /// the order of their entries.
    pub fn equals(&self, other: &Compound) -> (r: bool)
        ensures
            r == (self@ == other@),
        decreases self,
    {
        proof {
            use_type_invariant(self);
            use_type_invariant(other);
            lemma_entries_view(self.entries@);
            lemma_entries_view(other.entries@);
            self.lemma_entries_smaller();
        }
        let mut i: usize = 0;
        while i < self.entries.len()
            invariant
                i <= self.entries.len(),
                distinct_names(self.entries@),
                forall|k: int|
                    0 <= k < i ==> other@.dom().contains((#[trigger] self.entries@[k]).0@)
                        && other@[self.entries@[k].0@] == self.entries@[k].1@,
                forall|k: int|
                    0 <= k < self.entries@.len() ==> self@.dom().contains(
                        (#[trigger] self.entries@[k]).0@,
                    ) && self@[self.entries@[k].0@] == self.entries@[k].1@,
            decreases self.entries.len() - i,
        {
            proof {
                assert(has_name(self.entries@, self.entries@[i as int].0@));
            }
            match other.get_tag(self.entries[i].0.as_str()) {
                Some(tag) => {
                    if !self.entries[i].1.equals(tag) {
                        return false;
                    }
                },
                None => {
                    return false;
                },
            }
            i += 1;
        }
        let mut j: usize = 0;
        while j < other.entries.len()
            invariant
                j <= other.entries.len(),
                forall|k: int|
                    0 <= k < j ==> self@.dom().contains((#[trigger] other.entries@[k]).0@),
                forall|k: int|
                    0 <= k < other.entries@.len() ==> other@.dom().contains(
                        (#[trigger] other.entries@[k]).0@,
                    ),
            decreases other.entries.len() - j,
        {
            proof {
                assert(has_name(other.entries@, other.entries@[j as int].0@));
            }
            if !self.contains_key(other.entries[j].0.as_str()) {
                return false;
            }
            j += 1;
        }
        proof {
            assert forall|name: Seq<char>| self@.dom().contains(name) implies other@.dom().contains(
                name,
            ) && self@[name] == other@[name] by {
                let k = choose|k: int|
                    0 <= k < self.entries@.len() && (#[trigger] self.entries@[k]).0@ == name;
                assert(other@.dom().contains(self.entries@[k].0@));
            }
            assert forall|name: Seq<char>| other@.dom().contains(name) implies self@.dom().contains(
                name,
            ) by {
                let k = choose|k: int|
                    0 <= k < other.entries@.len() && (#[trigger] other.entries@[k]).0@ == name;
                assert(self@.dom().contains(other.entries@[k].0@));
            }
            assert(self@ =~= other@);
        }
        true
    }
}

impl Tag {
    /// The identifier of the variant.
    pub open spec fn kind(self) -> TagIdent {
        match self {
            Tag::Byte(_) => TagIdent::TAG_Byte,
            Tag::Short(_) => TagIdent::TAG_Short,
            Tag::Int(_) => TagIdent::TAG_Int,
            Tag::Long(_) => TagIdent::TAG_Long,
            Tag::Float(_) => TagIdent::TAG_Float,
            Tag::Double(_) => TagIdent::TAG_Double,
            Tag::ByteArray(_) => TagIdent::TAG_Byte_Array,
            Tag::String(_) => TagIdent::TAG_String,
            Tag::List(_) => TagIdent::TAG_List,
            Tag::Compound(_) => TagIdent::TAG_Compound,
            Tag::IntArray(_) => TagIdent::TAG_Int_Array,
            Tag::LongArray(_) => TagIdent::TAG_Long_Array,
        }
    }

    /// A tag and its value are of one variant, and none is an end marker.
    pub proof fn lemma_kind(self)
        ensures
            self@.ident() == self.kind(),
            self.kind() != TagIdent::TAG_End,
            1 <= self.kind().code() <= 12,
    {
    }

    /// The wire byte of the tag's type.
    pub fn id(&self) -> (r: u8)
        ensures
            r == self.kind().code(),
            1 <= r <= 12,
    {
        self.ident().id()
    }

    /// The `TagIdent` representation of a tag.
    /// Used to identify the prefix of a type.
    pub fn ident(&self) -> (r: TagIdent)
        ensures
            r == self.kind(),
            r == self@.ident(),
            r != TagIdent::TAG_End,
    {
        match self {
            Tag::Byte(_) => TagIdent::TAG_Byte,
            Tag::Short(_) => TagIdent::TAG_Short,
            Tag::Int(_) => TagIdent::TAG_Int,
            Tag::Long(_) => TagIdent::TAG_Long,
            Tag::Float(_) => TagIdent::TAG_Float,
            Tag::Double(_) => TagIdent::TAG_Double,
            Tag::ByteArray(_) => TagIdent::TAG_Byte_Array,
            Tag::String(_) => TagIdent::TAG_String,
            Tag::List(_) => TagIdent::TAG_List,
            Tag::Compound(_) => TagIdent::TAG_Compound,
            Tag::IntArray(_) => TagIdent::TAG_Int_Array,
            Tag::LongArray(_) => TagIdent::TAG_Long_Array,
        }
    }

    /// Whether two tags have the same value: the same variant and the same
    /// content, a compound's whatever the order of its entries.
    pub fn equals(&self, other: &Tag) -> (r: bool)
        ensures
            r == (self@ == other@),
        decreases self,
    {
        match (self, other) {
            (Tag::Byte(a), Tag::Byte(b)) => *a == *b,
            (Tag::Short(a), Tag::Short(b)) => *a == *b,
            (Tag::Int(a), Tag::Int(b)) => *a == *b,
            (Tag::Long(a), Tag::Long(b)) => *a == *b,
            (Tag::Float(a), Tag::Float(b)) => *a == *b,
            (Tag::Double(a), Tag::Double(b)) => *a == *b,
            (Tag::ByteArray(a), Tag::ByteArray(b)) => same_i8s(a, b),
            (Tag::String(a), Tag::String(b)) => *a == *b,
            (Tag::List(a), Tag::List(b)) => {
                proof {
                    lemma_items_view_equal(a@, b@);
                }
                if a.len() != b.len() {
                    return false;
                }
                let mut i: usize = 0;
                while i < a.len()
                    invariant
                        i <= a.len(),
                        a.len() == b.len(),
                        self matches Tag::List(w) && w == a,
                        other matches Tag::List(w) && w == b,
                        forall|k: int| 0 <= k < i ==> (#[trigger] a@[k])@ == b@[k]@,
                    decreases a.len() - i,
                {
                    if !a[i].equals(&b[i]) {
                        proof {
                            lemma_items_view_equal(a@, b@);
                        }
                        return false;
                    }
                    i += 1;
                }
                true
            },
            (Tag::Compound(a), Tag::Compound(b)) => a.equals(b),
            (Tag::IntArray(a), Tag::IntArray(b)) => same_i32s(a, b),
            (Tag::LongArray(a), Tag::LongArray(b)) => same_i64s(a, b),
            _ => false,
        }
    }
}

/// Whether two arrays of bytes hold the same numbers.
fn same_i8s(a: &Vec<i8>, b: &Vec<i8>) -> (r: bool)
    ensures
        r == (a@ == b@),
{
    if a.len() != b.len() {
        return false;
    }
    let mut i: usize = 0;
    while i < a.len()
        invariant
            i <= a.len(),
            a.len() == b.len(),
            forall|k: int| 0 <= k < i ==> a@[k] == b@[k],
        decreases a.len() - i,
    {
        if a[i] != b[i] {
            return false;
        }
        i += 1;
    }
    assert(a@ =~= b@);
    true
}

/// Whether two arrays of 32 bit integers hold the same numbers.
fn same_i32s(a: &Vec<i32>, b: &Vec<i32>) -> (r: bool)
    ensures
        r == (a@ == b@),
{
    if a.len() != b.len() {
        return false;
    }
    let mut i: usize = 0;
    while i < a.len()
        invariant
            i <= a.len(),
            a.len() == b.len(),
            forall|k: int| 0 <= k < i ==> a@[k] == b@[k],
        decreases a.len() - i,
    {
        if a[i] != b[i] {
            return false;
        }
        i += 1;
    }
    assert(a@ =~= b@);
    true
}

/// Whether two arrays of 64 bit integers hold the same numbers.
fn same_i64s(a: &Vec<i64>, b: &Vec<i64>) -> (r: bool)
    ensures
        r == (a@ == b@),
{
    if a.len() != b.len() {
        return false;
    }
    let mut i: usize = 0;
    while i < a.len()
        invariant
            i <= a.len(),
            a.len() == b.len(),
            forall|k: int| 0 <= k < i ==> a@[k] == b@[k],
        decreases a.len() - i,
    {
        if a[i] != b[i] {
            return false;
        }
        i += 1;
    }
    assert(a@ =~= b@);
    true
}

impl PartialEq for Tag {
    fn eq(&self, other: &Tag) -> (r: bool) {
        self.equals(other)
    }
}

impl vstd::std_specs::cmp::PartialEqSpecImpl for Tag {
    open spec fn obeys_eq_spec() -> bool {
        true
    }

    open spec fn eq_spec(&self, other: &Tag) -> bool {
        self@ == other@
    }
}

impl PartialEq for Compound {
    fn eq(&self, other: &Compound) -> (r: bool) {
        self.equals(other)
    }
}

impl vstd::std_specs::cmp::PartialEqSpecImpl for Compound {
    open spec fn obeys_eq_spec() -> bool {
        true
    }

    open spec fn eq_spec(&self, other: &Compound) -> bool {
        self@ == other@
    }
}

} // verus!
