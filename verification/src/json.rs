use vstd::prelude::*;

verus! {

/// A JSON number, held exactly as a decimal: the magnitude is
/// `mantissa / 10^scale`, and the number is negative iff `neg` is set. A
/// negative scale scales the mantissa up, so whole numbers of any size
/// have a place.
///
/// Keeping numbers in decimal form makes rounding to a fixed count of
/// decimal places exact integer arithmetic, with no representation error.
#[derive(Debug, Clone, Copy, PartialEq, Eq, Structural)]
pub struct Number {
    pub neg: bool,
    pub mantissa: u64,
    pub scale: i32,
}

/// An owned JSON document tree: the universal in-memory form that the
/// whole library operates on. Objects keep their entries in insertion
/// order, as a sequence of key/value pairs.
#[derive(Debug, PartialEq)]
pub enum Json {
    Null,
    Bool(bool),
    Num(Number),
    Str(String),
    Arr(Vec<Json>),
    Obj(Vec<(String, Json)>),
}

/// The mathematical model of a [`Json`] tree, with strings as character
/// sequences and containers as `Seq`s. All contracts speak of this model.
pub enum JsonView {
    Null,
    Bool(bool),
    Num(Number),
    Str(Seq<char>),
    Arr(Seq<JsonView>),
    Obj(Seq<(Seq<char>, JsonView)>),
}

/// The views of the elements of an array, in order.
pub open spec fn items_view(items: Seq<Json>) -> Seq<JsonView>
    decreases items,
{
    Seq::new(
        items.len(),
        |i: int|
            if 0 <= i < items.len() {
                items[i]@
            } else {
                JsonView::Null
            },
    )
}

/// The views of the entries of an object, in order: each key as a
/// character sequence, each value as its model.
pub open spec fn entries_view(entries: Seq<(String, Json)>) -> Seq<(Seq<char>, JsonView)>
    decreases entries,
{
    Seq::new(
        entries.len(),
        |i: int|
            if 0 <= i < entries.len() {
                (entries[i].0@, entries[i].1@)
            } else {
                (Seq::empty(), JsonView::Null)
            },
    )
}

impl View for Json {
    type V = JsonView;

    open spec fn view(&self) -> JsonView
        decreases self,
    {
        match self {
            Json::Null => JsonView::Null,
            Json::Bool(b) => JsonView::Bool(*b),
            Json::Num(n) => JsonView::Num(*n),
            Json::Str(s) => JsonView::Str(s@),
            Json::Arr(items) => JsonView::Arr(items_view(items@)),
            Json::Obj(entries) => JsonView::Obj(entries_view(entries@)),
        }
    }
}

/// How the view of a [`Json`] value is built from the views of its parts,
/// one variant at a time. Brought in wherever a proof needs to cross
/// between a tree and its model.
pub broadcast proof fn lemma_view_shape(j: Json)
    ensures
        j is Null ==> #[trigger] j@ == JsonView::Null,
        j is Bool ==> j@ == JsonView::Bool(j->Bool_0),
        j is Num ==> j@ == JsonView::Num(j->Num_0),
        j is Str ==> j@ == JsonView::Str(j->Str_0@),
        j is Arr ==> j@ == JsonView::Arr(items_view(j->Arr_0@)),
        j is Obj ==> j@ == JsonView::Obj(entries_view(j->Obj_0@)),
{
    reveal_with_fuel(<Json as View>::view, 2);
}

/// Index-by-index reading of [`items_view`].
pub broadcast proof fn lemma_items_view(items: Seq<Json>)
    ensures
        #[trigger] items_view(items).len() == items.len(),
        forall|i: int|
            #![trigger items_view(items)[i]]
            #![trigger items[i]@]
            0 <= i < items.len() ==> items_view(items)[i] == items[i]@,
{
    reveal_with_fuel(items_view, 2);
}

/// The views of a list of keys, in order.
pub open spec fn keys_view(keys: Seq<String>) -> Seq<Seq<char>> {
    keys.map_values(|s: String| s@)
}

/// The value bound to `key` in an object's entries: the first entry with
/// that key wins, as it does for every operation of this library.
pub open spec fn lookup(
    entries: Seq<(Seq<char>, JsonView)>,
    key: Seq<char>,
) -> Option<JsonView>
    decreases entries.len(),
{
    if entries.len() == 0 {
        None
    } else if entries[0].0 == key {
        Some(entries[0].1)
    } else {
        lookup(entries.drop_first(), key)
    }
}

/// The entries with the value of the first `key` entry replaced by
/// `value`; entries without that key are returned unchanged.
pub open spec fn set_first(
    entries: Seq<(Seq<char>, JsonView)>,
    key: Seq<char>,
    value: JsonView,
) -> Seq<(Seq<char>, JsonView)>
    decreases entries.len(),
{
    if entries.len() == 0 {
        entries
    } else if entries[0].0 == key {
        seq![(entries[0].0, value)] + entries.drop_first()
    } else {
        seq![entries[0]] + set_first(entries.drop_first(), key, value)
    }
}

/// At the first index holding `key`, [`lookup`] returns that entry's value.
pub proof fn lemma_lookup_at_first_index(
    entries: Seq<(Seq<char>, JsonView)>,
    key: Seq<char>,
    i: int,
)
    requires
        0 <= i < entries.len(),
        entries[i].0 == key,
        forall|j: int| 0 <= j < i ==> entries[j].0 != key,
    ensures
        lookup(entries, key) == Some(entries[i].1),
    decreases i,
{
    if i > 0 {
        lemma_lookup_at_first_index(entries.drop_first(), key, i - 1);
    }
}

/// Without an entry holding `key`, [`lookup`] returns nothing.
pub proof fn lemma_lookup_absent(entries: Seq<(Seq<char>, JsonView)>, key: Seq<char>)
    requires
        forall|j: int| 0 <= j < entries.len() ==> entries[j].0 != key,
    ensures
        lookup(entries, key) is None,
    decreases entries.len(),
{
    if entries.len() > 0 {
        lemma_lookup_absent(entries.drop_first(), key);
    }
}

/// At the first index holding `key`, [`set_first`] is a point update.
pub proof fn lemma_set_first_at_index(
    entries: Seq<(Seq<char>, JsonView)>,
    key: Seq<char>,
    i: int,
    value: JsonView,
)
    requires
        0 <= i < entries.len(),
        entries[i].0 == key,
        forall|j: int| 0 <= j < i ==> entries[j].0 != key,
    ensures
        set_first(entries, key, value) == entries.update(i, (key, value)),
    decreases i,
{
    if i == 0 {
        assert(seq![(entries[0].0, value)] + entries.drop_first() =~= entries.update(
            0,
            (key, value),
        ));
    } else {
        lemma_set_first_at_index(entries.drop_first(), key, i - 1, value);
        assert(seq![entries[0]] + entries.drop_first().update(i - 1, (key, value)) =~= entries
            .update(i, (key, value)));
    }
}

/// After [`set_first`], the key reads back as the value just written,
/// provided the key was there to begin with.
pub proof fn lemma_lookup_set_first(
    entries: Seq<(Seq<char>, JsonView)>,
    key: Seq<char>,
    value: JsonView,
)
    requires
        lookup(entries, key) is Some,
    ensures
        lookup(set_first(entries, key, value), key) == Some(value),
    decreases entries.len(),
{
    if entries.len() > 0 {
        if entries[0].0 == key {
            assert((seq![(entries[0].0, value)] + entries.drop_first())[0] == (
                entries[0].0,
                value,
            ));
        } else {
            lemma_lookup_set_first(entries.drop_first(), key, value);
            let tail = set_first(entries.drop_first(), key, value);
            assert((seq![entries[0]] + tail).drop_first() =~= tail);
            assert((seq![entries[0]] + tail)[0] == entries[0]);
        }
    }
}

/// Whether two string slices read the same.
pub(crate) fn str_eq(a: &str, b: &str) -> (r: bool)
    ensures
        r == (a@ == b@),
{
    let sa: String = a.to_owned();
    let sb: String = b.to_owned();
    sa == sb
}

/// Index of the first entry whose key reads `key`, if any.
pub fn find_key(entries: &Vec<(String, Json)>, key: &str) -> (r: Option<usize>)
    ensures
        match r {
            Some(i) => {
                &&& i < entries@.len()
                &&& entries@[i as int].0@ == key@
                &&& forall|j: int| 0 <= j < i ==> entries@[j].0@ != key@
            },
            None => forall|j: int| 0 <= j < entries@.len() ==> entries@[j].0@ != key@,
        },
{
    let k: String = key.to_owned();
    let mut i: usize = 0;
    while i < entries.len()
        invariant
            k@ == key@,
            i <= entries@.len(),
            forall|j: int| 0 <= j < i ==> entries@[j].0@ != key@,
        decreases entries@.len() - i,
    {
        if entries[i].0 == k {
            return Some(i);
        }
        i = i + 1;
    }
    None
}

/// Index-by-index reading of [`entries_view`].
pub broadcast proof fn lemma_entries_view(entries: Seq<(String, Json)>)
    ensures
        #[trigger] entries_view(entries).len() == entries.len(),
        forall|i: int|
            #![trigger entries_view(entries)[i]]
            #![trigger entries[i].0@]
            0 <= i < entries.len() ==> entries_view(entries)[i] == (
                entries[i].0@,
                entries[i].1@,
            ),
{
    reveal_with_fuel(entries_view, 2);
}

} // verus!

