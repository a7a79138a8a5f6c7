use vstd::prelude::*;
use vstd::string::StrSliceExecFns;

use crate::json::entries_view;
use crate::json::find_key;
use crate::json::keys_view;
use crate::json::lookup;
use crate::json::set_first;
use crate::json::Json;
use crate::json::JsonView;
use crate::json::Number;

verus! {

broadcast use crate::json::lemma_view_shape, crate::json::lemma_items_view, crate::json::lemma_entries_view, vstd::prelude::Seq::lemma_filter_push;

/// `10^k`.
pub open spec fn pow10(k: nat) -> nat
    decreases k,
{
    if k == 0 {
        1
    } else {
        10 * pow10((k - 1) as nat)
    }
}

/// `m / p` rounded to the nearest integer, ties rounded up. Applied to the
/// magnitude of a decimal, this is rounding half away from zero.
pub open spec fn round_div_half_away(m: nat, p: nat) -> nat
    recommends
        p > 0,
{
    if 2 * (m % p) >= p {
        m / p + 1
    } else {
        m / p
    }
}

/// What truncating one number to `d` decimal places returns: a number that
/// already has at most `d` decimals is kept as it is; otherwise its magnitude
/// is divided by `10^(scale - d)`, rounded half away from zero.
pub open spec fn trunc_num(n: Number, d: nat) -> Number {
    if n.scale <= d {
        n
    } else {
        Number {
            neg: n.neg,
            mantissa: round_div_half_away(
                n.mantissa as nat,
                pow10((n.scale - d) as nat),
            ) as u64,
            scale: d as i32,
        }
    }
}

proof fn lemma_pow10_positive(k: nat)
    ensures
        pow10(k) >= 1,
    decreases k,
{
    if k > 0 {
        lemma_pow10_positive((k - 1) as nat);
    }
}

proof fn lemma_pow10_increases(a: nat, b: nat)
    requires
        a <= b,
    ensures
        pow10(a) <= pow10(b),
    decreases b,
{
    if a < b {
        lemma_pow10_increases(a, (b - 1) as nat);
        lemma_pow10_positive((b - 1) as nat);
    }
}

/// `10^k` for exponents small enough that the result fits in a `u64`.
fn pow10_u64(k: u32) -> (r: u64)
    requires
        k <= 19,
    ensures
        r == pow10(k as nat),
{
    let mut i: u32 = 0;
    let mut acc: u64 = 1;
    while i < k
        invariant
            i <= k <= 19,
            acc == pow10(i as nat),
        decreases k - i,
    {
        proof {
            lemma_pow10_increases((i + 1) as nat, 19);
            assert(pow10(19) == 10000000000000000000) by {
                reveal_with_fuel(pow10, 20);
            }
        }
        acc = acc * 10;
        i = i + 1;
    }
    acc
}

/// What truncating a whole coordinate structure returns: every number in
/// the tree is rounded to `d` decimal places, arrays are walked element by
/// element at any depth, and every other kind of value is left untouched.
pub open spec fn trunc_tree(v: JsonView, d: nat) -> JsonView
    decreases v,
{
    match v {
        JsonView::Num(n) => JsonView::Num(trunc_num(n, d)),
        JsonView::Arr(items) => JsonView::Arr(
            Seq::new(
                items.len(),
                |i: int|
                    if 0 <= i < items.len() {
                        trunc_tree(items[i], d)
                    } else {
                        JsonView::Null
                    },
            ),
        ),
        _ => v,
    }
}

/// Round one coordinate to `decimal` places, half away from zero.
///
/// Exact on the decimal representation: a scale no larger than `decimal`
/// is left untouched, however large `decimal` is, and the division can
/// neither overflow nor panic.
pub fn truncate_coord(coord: Number, decimal: usize) -> (r: Number)
    ensures
        r == trunc_num(coord, decimal as nat),
{
    if coord.scale <= 0 {
        return coord;
    }
    if coord.scale as usize <= decimal {
        return coord;
    }
    let d = (coord.scale - (decimal as i32)) as u32;
    if d >= 20 {
        // the divisor outruns any u64 magnitude twice over: the quotient
        // rounds to zero
        proof {
            lemma_pow10_increases(20, d as nat);
            assert(pow10(20) == 100000000000000000000) by {
                reveal_with_fuel(pow10, 21);
            }
            let m = coord.mantissa as nat;
            let p = pow10((coord.scale - decimal) as nat);
            vstd::arithmetic::div_mod::lemma_basic_div(m as int, p as int);
            vstd::arithmetic::div_mod::lemma_small_mod(m, p);
        }
        Number { neg: coord.neg, mantissa: 0, scale: decimal as i32 }
    } else {
        let p = pow10_u64(d);
        proof {
            lemma_pow10_positive((d - 1) as nat);
            assert(p >= 10);
        }
        let q = coord.mantissa / p;
        let r = coord.mantissa % p;
        proof {
            if coord.mantissa > 0 {
                vstd::arithmetic::div_mod::lemma_div_is_strictly_smaller(
                    coord.mantissa as int,
                    p as int,
                );
            }
        }
        let mantissa = if r >= p - r {
            q + 1
        } else {
            q
        };
        Number { neg: coord.neg, mantissa, scale: decimal as i32 }
    }
}

/// Truncate every number under `value` to `decimal` places, returning the
/// rewritten tree.
#[verifier::loop_isolation(false)]
fn truncate_value(value: Json, decimal: usize) -> (r: Json)
    ensures
        r@ == trunc_tree(value@, decimal as nat),
    decreases value,
{
    let ghost orig_value = value;
    match value {
        Json::Num(n) => Json::Num(truncate_coord(n, decimal)),
        Json::Arr(items) => {
            let ghost orig = items@;
            let mut rest = items;
            let mut done: Vec<Json> = Vec::new();
            while rest.len() > 0
                invariant
                    orig_value is Arr,
                    orig_value->Arr_0@ == orig,
                    orig.len() == done@.len() + rest@.len(),
                    forall|j: int|
                        0 <= j < done@.len() ==> done@[j]@ == trunc_tree(
                            orig[j]@,
                            decimal as nat,
                        ),
                    forall|j: int|
                        0 <= j < rest@.len() ==> rest@[j] == orig[done@.len() + j],
                decreases rest@.len(),
            {
                let x = rest.remove(0);
                proof {
                    let k = done@.len() as int;
                    assert(x == orig_value->Arr_0@[k]);
                    assert(decreases_to!(orig_value => orig_value->Arr_0));
                    assert(decreases_to!(orig_value->Arr_0 => orig_value->Arr_0@));
                    assert(decreases_to!(orig_value->Arr_0@ => orig_value->Arr_0@[k]));
                    assert(decreases_to!(orig_value => x));
                }
                let y = truncate_value(x, decimal);
                done.push(y);
            }
            proof {
                let d = decimal as nat;
                let vs = orig_value@->Arr_0;
                assert(vs.len() == orig.len());
                assert(forall|i: int| 0 <= i < orig.len() ==> vs[i] == #[trigger] orig[i]@);
                assert((Json::Arr(done))@->Arr_0 =~= trunc_tree(orig_value@, d)->Arr_0);
                assert((Json::Arr(done))@ == trunc_tree(orig_value@, d));
            }
            Json::Arr(done)
        },
        other => other,
    }
}

/// Recursively walk `coordinates`, rounding every number in it to `decimal`
/// decimal places, half away from zero; nested arrays are walked at any
/// depth, and values that are not numbers or arrays are left untouched.
pub fn truncate_coordinate_in_array(coordinates: &mut Json, decimal: usize)
    ensures
        final(coordinates)@ == trunc_tree(old(coordinates)@, decimal as nat),
{
    let mut value = Json::Null;
    core::mem::swap(&mut value, coordinates);
    let value = truncate_value(value, decimal);
    *coordinates = value;
}

/// Truncating to a given count of decimal places is idempotent on one
/// number: a second pass returns exactly what the first one did.
pub proof fn lemma_truncate_coord_idempotent(n: Number, d: nat)
    ensures
        trunc_num(trunc_num(n, d), d) == trunc_num(n, d),
{
}

/// Truncating to a given count of decimal places is idempotent on a whole
/// coordinate structure: a second pass returns exactly what the first one
/// did.
pub proof fn lemma_truncate_idempotent(v: JsonView, d: nat)
    ensures
        trunc_tree(trunc_tree(v, d), d) == trunc_tree(v, d),
    decreases v,
{
    match v {
        JsonView::Num(n) => {
            lemma_truncate_coord_idempotent(n, d);
        },
        JsonView::Arr(items) => {
            assert forall|i: int| 0 <= i < items.len() implies trunc_tree(
                trunc_tree(items[i], d),
                d,
            ) == trunc_tree(items[i], d) by {
                lemma_truncate_idempotent(items[i], d);
            }
            assert(trunc_tree(trunc_tree(v, d), d)->Arr_0 =~= trunc_tree(v, d)->Arr_0);
        },
        _ => {},
    }
}

} // verus!

verus! {

/// Whether a property value is dropped by the null-or-empty rule: exactly
/// JSON null or the empty string, and nothing else.
pub open spec fn is_null_or_empty(v: JsonView) -> bool {
    v is Null || (v is Str && v->Str_0.len() == 0)
}

/// Property entries with every null or empty-string value removed.
pub open spec fn drop_null_empty(
    props: Seq<(Seq<char>, JsonView)>,
) -> Seq<(Seq<char>, JsonView)> {
    props.filter(|e: (Seq<char>, JsonView)| !is_null_or_empty(e.1))
}

/// Property entries with every listed key removed.
pub open spec fn without_keys(
    props: Seq<(Seq<char>, JsonView)>,
    keys: Seq<Seq<char>>,
) -> Seq<(Seq<char>, JsonView)> {
    props.filter(|e: (Seq<char>, JsonView)| !keys.contains(e.0))
}

/// Property entries narrowed to the listed keys.
pub open spec fn only_keys(
    props: Seq<(Seq<char>, JsonView)>,
    keys: Seq<Seq<char>>,
) -> Seq<(Seq<char>, JsonView)> {
    props.filter(|e: (Seq<char>, JsonView)| keys.contains(e.0))
}

/// The entries of a feature's properties object, when the feature is an
/// object whose "properties" value is an object.
pub open spec fn props_of(v: JsonView) -> Option<Seq<(Seq<char>, JsonView)>> {
    match v {
        JsonView::Obj(entries) => match lookup(entries, "properties"@) {
            Some(JsonView::Obj(props)) => Some(props),
            _ => None,
        },
        _ => None,
    }
}

/// The feature with the entries of its properties object replaced by `ps`.
pub open spec fn with_props(v: JsonView, ps: Seq<(Seq<char>, JsonView)>) -> JsonView
    recommends
        props_of(v) is Some,
{
    JsonView::Obj(set_first(v->Obj_0, "properties"@, JsonView::Obj(ps)))
}

/// What removing null-or-empty properties returns: a feature without a
/// properties object is left unchanged.
pub open spec fn dropped_null_empty_props(v: JsonView) -> JsonView {
    match props_of(v) {
        Some(ps) => with_props(v, drop_null_empty(ps)),
        None => v,
    }
}

/// What removing the listed property keys returns: a feature without a
/// properties object is left unchanged, and an absent key removes nothing.
pub open spec fn removed_props(v: JsonView, keys: Seq<Seq<char>>) -> JsonView {
    match props_of(v) {
        Some(ps) => with_props(v, without_keys(ps, keys)),
        None => v,
    }
}

/// What keeping only the listed property keys returns: a feature without a
/// properties object is left unchanged.
pub open spec fn kept_props(v: JsonView, keys: Seq<Seq<char>>) -> JsonView {
    match props_of(v) {
        Some(ps) => with_props(v, only_keys(ps, keys)),
        None => v,
    }
}

/// Whether a property holding this value is dropped by the
/// null-or-empty rule: exactly null or the empty string.
fn is_removable_value(v: &Json) -> (r: bool)
    ensures
        r == is_null_or_empty(v@),
{
    match v {
        Json::Null => true,
        Json::Str(s) => s.as_str().unicode_len() == 0,
        _ => false,
    }
}

/// Whether `key` reads as one of the strings in `keys`.
fn contains_key(keys: &Vec<String>, key: &String) -> (r: bool)
    ensures
        r == keys_view(keys@).contains(key@),
{
    let mut i: usize = 0;
    while i < keys.len()
        invariant
            i <= keys@.len(),
            forall|j: int| 0 <= j < i ==> keys@[j]@ != key@,
        decreases keys@.len() - i,
    {
        if keys[i] == *key {
            assert(keys_view(keys@)[i as int] == key@);
            return true;
        }
        i = i + 1;
    }
    assert(forall|j: int|
        0 <= j < keys@.len() ==> #[trigger] keys_view(keys@)[j] == keys@[j]@);
    false
}

/// The entries of a properties object with every null or empty-string
/// value removed, in their old order.
#[verifier::loop_isolation(false)]
fn retain_non_null_empty(props: Vec<(String, Json)>) -> (r: Vec<(String, Json)>)
    ensures
        entries_view(r@) == drop_null_empty(entries_view(props@)),
{
    let ghost orig = props@;
    let mut rest = props;
    let mut out: Vec<(String, Json)> = Vec::new();
    while rest.len() > 0
        invariant
            rest@.len() <= orig.len(),
            forall|j: int|
                0 <= j < rest@.len() ==> rest@[j] == orig[orig.len() - rest@.len() + j],
            entries_view(out@) == drop_null_empty(
                entries_view(orig.take(orig.len() - rest@.len())),
            ),
        decreases rest@.len(),
    {
        let ghost k = orig.len() - rest@.len();
        let e = rest.remove(0);
        let keep = !is_removable_value(&e.1);
        proof {
            assert(e == orig[k]);
            assert(entries_view(orig.take(k + 1)) =~= entries_view(orig.take(k)).push(
                (e.0@, e.1@),
            ));
        }
        if keep {
            out.push(e);
        }
        proof {
            assert(entries_view(out@) =~= drop_null_empty(entries_view(orig.take(k + 1))));
        }
    }
    proof {
        assert(orig.take(orig.len() as int) =~= orig);
    }
    out
}

} // verus!

verus! {

/// The entries of a properties object with every entry whose key is
/// listed in `keys` removed, in their old order.
#[verifier::loop_isolation(false)]
fn retain_without_keys(props: Vec<(String, Json)>, keys: &Vec<String>) -> (r: Vec<
    (String, Json),
>)
    ensures
        entries_view(r@) == without_keys(entries_view(props@), keys_view(keys@)),
{
    let ghost orig = props@;
    let mut rest = props;
    let mut out: Vec<(String, Json)> = Vec::new();
    while rest.len() > 0
        invariant
            rest@.len() <= orig.len(),
            forall|j: int|
                0 <= j < rest@.len() ==> rest@[j] == orig[orig.len() - rest@.len() + j],
            entries_view(out@) == without_keys(
                entries_view(orig.take(orig.len() - rest@.len())),
                keys_view(keys@),
            ),
        decreases rest@.len(),
    {
        let ghost k = orig.len() - rest@.len();
        let e = rest.remove(0);
        let keep = !contains_key(keys, &e.0);
        proof {
            assert(e == orig[k]);
            assert(entries_view(orig.take(k + 1)) =~= entries_view(orig.take(k)).push(
                (e.0@, e.1@),
            ));
        }
        if keep {
            out.push(e);
        }
        proof {
            assert(entries_view(out@) =~= without_keys(
                entries_view(orig.take(k + 1)),
                keys_view(keys@),
            ));
        }
    }
    proof {
        assert(orig.take(orig.len() as int) =~= orig);
    }
    out
}

/// The entries of a properties object narrowed to the keys listed in
/// `keys`, in their old order.
#[verifier::loop_isolation(false)]
fn retain_only_keys(props: Vec<(String, Json)>, keys: &Vec<String>) -> (r: Vec<
    (String, Json),
>)
    ensures
        entries_view(r@) == only_keys(entries_view(props@), keys_view(keys@)),
{
    let ghost orig = props@;
    let mut rest = props;
    let mut out: Vec<(String, Json)> = Vec::new();
    while rest.len() > 0
        invariant
            rest@.len() <= orig.len(),
            forall|j: int|
                0 <= j < rest@.len() ==> rest@[j] == orig[orig.len() - rest@.len() + j],
            entries_view(out@) == only_keys(
                entries_view(orig.take(orig.len() - rest@.len())),
                keys_view(keys@),
            ),
        decreases rest@.len(),
    {
        let ghost k = orig.len() - rest@.len();
        let e = rest.remove(0);
        let keep = contains_key(keys, &e.0);
        proof {
            assert(e == orig[k]);
            assert(entries_view(orig.take(k + 1)) =~= entries_view(orig.take(k)).push(
                (e.0@, e.1@),
            ));
        }
        if keep {
            out.push(e);
        }
        proof {
            assert(entries_view(out@) =~= only_keys(
                entries_view(orig.take(k + 1)),
                keys_view(keys@),
            ));
        }
    }
    proof {
        assert(orig.take(orig.len() as int) =~= orig);
    }
    out
}

} // verus!

verus! {

/// Replacing the value of the first "properties" entry is a point update
/// of the object's entries, and reads back as [`with_props`].
proof fn lemma_props_update(v: JsonView, i: int, ps: Seq<(Seq<char>, JsonView)>)
    requires
        v is Obj,
        0 <= i < v->Obj_0.len(),
        v->Obj_0[i].0 == "properties"@,
        forall|j: int| 0 <= j < i ==> v->Obj_0[j].0 != "properties"@,
        v->Obj_0[i].1 is Obj,
    ensures
        props_of(v) == Some(v->Obj_0[i].1->Obj_0),
        JsonView::Obj(v->Obj_0.update(i, ("properties"@, JsonView::Obj(ps)))) == with_props(
            v,
            ps,
        ),
{
    crate::json::lemma_lookup_at_first_index(v->Obj_0, "properties"@, i);
    crate::json::lemma_set_first_at_index(v->Obj_0, "properties"@, i, JsonView::Obj(ps));
}

/// Remove every property whose value is JSON null or the empty string.
/// Values of any other kind, an empty array among them, stay.
///
/// A document without a properties object is returned unchanged.
pub fn remove_null_or_empty_properties(geojson: &mut Json)
    ensures
        final(geojson)@ == dropped_null_empty_props(old(geojson)@),
{
    let mut value = Json::Null;
    core::mem::swap(&mut value, geojson);
    let value = drop_null_empty_value(value);
    *geojson = value;
}

fn drop_null_empty_value(value: Json) -> (r: Json)
    ensures
        r@ == dropped_null_empty_props(value@),
{
    let ghost orig_value = value;
    match value {
        Json::Obj(entries) => {
            let mut entries = entries;
            let ghost orig = entries@;
            match find_key(&entries, "properties") {
                Some(pi) => {
                    let (key, val) = entries.remove(pi);
                    match val {
                        Json::Obj(props) => {
                            let kept = retain_non_null_empty(props);
                            entries.insert(pi, (key, Json::Obj(kept)));
                            proof {
                                assert(entries@ =~= orig.update(
                                    pi as int,
                                    (key, Json::Obj(kept)),
                                ));
                                assert(entries_view(entries@) =~= entries_view(orig).update(
                                    pi as int,
                                    ("properties"@, JsonView::Obj(entries_view(kept@))),
                                ));
                                lemma_props_update(
                                    orig_value@,
                                    pi as int,
                                    drop_null_empty(entries_view(props@)),
                                );
                            }
                        },
                        other => {
                            entries.insert(pi, (key, other));
                            proof {
                                assert(entries@ =~= orig);
                                assert(entries_view(entries@) =~= entries_view(orig));
                                crate::json::lemma_lookup_at_first_index(
                                    entries_view(orig),
                                    "properties"@,
                                    pi as int,
                                );
                            }
                        },
                    }
                    Json::Obj(entries)
                },
                None => {
                    proof {
                        crate::json::lemma_lookup_absent(entries_view(orig), "properties"@);
                    }
                    Json::Obj(entries)
                },
            }
        },
        other => other,
    }
}

} // verus!

verus! {

/// Remove exactly the properties whose keys are listed in `keys`; a
/// listed key that is absent removes nothing and raises no error.
///
/// A document without a properties object is returned unchanged.
pub fn remove_properties(geojson: &mut Json, keys: &Vec<String>)
    ensures
        final(geojson)@ == removed_props(old(geojson)@, keys_view(keys@)),
{
    let mut value = Json::Null;
    core::mem::swap(&mut value, geojson);
    let value = remove_keys_value(value, keys);
    *geojson = value;
}

fn remove_keys_value(value: Json, keys: &Vec<String>) -> (r: Json)
    ensures
        r@ == removed_props(value@, keys_view(keys@)),
{
    let ghost orig_value = value;
    match value {
        Json::Obj(entries) => {
            let mut entries = entries;
            let ghost orig = entries@;
            match find_key(&entries, "properties") {
                Some(pi) => {
                    let (key, val) = entries.remove(pi);
                    match val {
                        Json::Obj(props) => {
                            let kept = retain_without_keys(props, keys);
                            entries.insert(pi, (key, Json::Obj(kept)));
                            proof {
                                assert(entries@ =~= orig.update(
                                    pi as int,
                                    (key, Json::Obj(kept)),
                                ));
                                assert(entries_view(entries@) =~= entries_view(orig).update(
                                    pi as int,
                                    ("properties"@, JsonView::Obj(entries_view(kept@))),
                                ));
                                lemma_props_update(
                                    orig_value@,
                                    pi as int,
                                    without_keys(entries_view(props@), keys_view(keys@)),
                                );
                            }
                        },
                        other => {
                            entries.insert(pi, (key, other));
                            proof {
                                assert(entries@ =~= orig);
                                assert(entries_view(entries@) =~= entries_view(orig));
                                crate::json::lemma_lookup_at_first_index(
                                    entries_view(orig),
                                    "properties"@,
                                    pi as int,
                                );
                            }
                        },
                    }
                    Json::Obj(entries)
                },
                None => {
                    proof {
                        crate::json::lemma_lookup_absent(entries_view(orig), "properties"@);
                    }
                    Json::Obj(entries)
                },
            }
        },
        other => other,
    }
}

/// Keep only the properties whose keys are listed in `keys`; a listed key
/// that is absent adds nothing.
///
/// A document without a properties object is returned unchanged.
pub fn keep_properties(geojson: &mut Json, keys: &Vec<String>)
    ensures
        final(geojson)@ == kept_props(old(geojson)@, keys_view(keys@)),
{
    let mut value = Json::Null;
    core::mem::swap(&mut value, geojson);
    let value = keep_keys_value(value, keys);
    *geojson = value;
}

fn keep_keys_value(value: Json, keys: &Vec<String>) -> (r: Json)
    ensures
        r@ == kept_props(value@, keys_view(keys@)),
{
    let ghost orig_value = value;
    match value {
        Json::Obj(entries) => {
            let mut entries = entries;
            let ghost orig = entries@;
            match find_key(&entries, "properties") {
                Some(pi) => {
                    let (key, val) = entries.remove(pi);
                    match val {
                        Json::Obj(props) => {
                            let kept = retain_only_keys(props, keys);
                            entries.insert(pi, (key, Json::Obj(kept)));
                            proof {
                                assert(entries@ =~= orig.update(
                                    pi as int,
                                    (key, Json::Obj(kept)),
                                ));
                                assert(entries_view(entries@) =~= entries_view(orig).update(
                                    pi as int,
                                    ("properties"@, JsonView::Obj(entries_view(kept@))),
                                ));
                                lemma_props_update(
                                    orig_value@,
                                    pi as int,
                                    only_keys(entries_view(props@), keys_view(keys@)),
                                );
                            }
                        },
                        other => {
                            entries.insert(pi, (key, other));
                            proof {
                                assert(entries@ =~= orig);
                                assert(entries_view(entries@) =~= entries_view(orig));
                                crate::json::lemma_lookup_at_first_index(
                                    entries_view(orig),
                                    "properties"@,
                                    pi as int,
                                );
                            }
                        },
                    }
                    Json::Obj(entries)
                },
                None => {
                    proof {
                        crate::json::lemma_lookup_absent(entries_view(orig), "properties"@);
                    }
                    Json::Obj(entries)
                },
            }
        },
        other => other,
    }
}

} // verus!

verus! {

/// Whether the feature is an object whose "geometry" entry holds an
/// object. All of [`process_feature`]'s work is gated on this, property
/// filtering included.
pub open spec fn has_geometry_object(v: JsonView) -> bool {
    v is Obj && match lookup(v->Obj_0, "geometry"@) {
        Some(g) => g is Obj,
        None => false,
    }
}

/// What truncating a feature's coordinates returns: when the feature's
/// geometry object holds a "coordinates" entry, every number under that
/// value is rounded to `d` decimal places; any other shape of document is
/// returned unchanged.
pub open spec fn feature_truncated(v: JsonView, d: nat) -> JsonView {
    match v {
        JsonView::Obj(entries) => match lookup(entries, "geometry"@) {
            Some(JsonView::Obj(gentries)) => match lookup(gentries, "coordinates"@) {
                Some(c) => JsonView::Obj(
                    set_first(
                        entries,
                        "geometry"@,
                        JsonView::Obj(set_first(gentries, "coordinates"@, trunc_tree(c, d))),
                    ),
                ),
                None => v,
            },
            _ => v,
        },
        _ => v,
    }
}

/// Whether the document is an object whose "geometry" entry holds an object.
fn geometry_is_object(feature: &Json) -> (r: bool)
    ensures
        r == has_geometry_object(feature@),
{
    match feature {
        Json::Obj(entries) => {
            match find_key(entries, "geometry") {
                Some(gi) => {
                    proof {
                        crate::json::lemma_lookup_at_first_index(
                            entries_view(entries@),
                            "geometry"@,
                            gi as int,
                        );
                    }
                    match &entries[gi].1 {
                        Json::Obj(_) => true,
                        _ => false,
                    }
                },
                None => {
                    proof {
                        crate::json::lemma_lookup_absent(entries_view(entries@), "geometry"@);
                    }
                    false
                },
            }
        },
        _ => false,
    }
}

fn truncate_feature_value(value: Json, decimal: usize) -> (r: Json)
    ensures
        r@ == feature_truncated(value@, decimal as nat),
{
    let ghost orig_value = value;
    match value {
        Json::Obj(entries) => {
            let mut entries = entries;
            let ghost orig = entries@;
            match find_key(&entries, "geometry") {
                Some(gi) => {
                    let (gkey, gval) = entries.remove(gi);
                    match gval {
                        Json::Obj(gentries) => {
                            let mut gentries = gentries;
                            let ghost gorig = gentries@;
                            match find_key(&gentries, "coordinates") {
                                Some(ci) => {
                                    let (ckey, cval) = gentries.remove(ci);
                                    let cnew = truncate_value(cval, decimal);
                                    gentries.insert(ci, (ckey, cnew));
                                    entries.insert(gi, (gkey, Json::Obj(gentries)));
                                    proof {
                                        let d = decimal as nat;
                                        let ev = entries_view(orig);
                                        let gv = entries_view(gorig);
                                        crate::json::lemma_lookup_at_first_index(
                                            ev,
                                            "geometry"@,
                                            gi as int,
                                        );
                                        crate::json::lemma_lookup_at_first_index(
                                            gv,
                                            "coordinates"@,
                                            ci as int,
                                        );
                                        crate::json::lemma_set_first_at_index(
                                            gv,
                                            "coordinates"@,
                                            ci as int,
                                            trunc_tree(cval@, d),
                                        );
                                        crate::json::lemma_set_first_at_index(
                                            ev,
                                            "geometry"@,
                                            gi as int,
                                            JsonView::Obj(
                                                gv.update(
                                                    ci as int,
                                                    ("coordinates"@, trunc_tree(cval@, d)),
                                                ),
                                            ),
                                        );
                                        assert(gentries@ =~= gorig.update(
                                            ci as int,
                                            (ckey, cnew),
                                        ));
                                        assert(entries_view(gentries@) =~= gv.update(
                                            ci as int,
                                            ("coordinates"@, cnew@),
                                        ));
                                        assert(entries@ =~= orig.update(
                                            gi as int,
                                            (gkey, Json::Obj(gentries)),
                                        ));
                                        assert(entries_view(entries@) =~= ev.update(
                                            gi as int,
                                            ("geometry"@, (Json::Obj(gentries))@),
                                        ));
                                    }
                                    Json::Obj(entries)
                                },
                                None => {
                                    entries.insert(gi, (gkey, Json::Obj(gentries)));
                                    proof {
                                        crate::json::lemma_lookup_at_first_index(
                                            entries_view(orig),
                                            "geometry"@,
                                            gi as int,
                                        );
                                        crate::json::lemma_lookup_absent(
                                            entries_view(gorig),
                                            "coordinates"@,
                                        );
                                        assert(entries@ =~= orig);
                                        assert(entries_view(entries@) =~= entries_view(orig));
                                    }
                                    Json::Obj(entries)
                                },
                            }
                        },
                        other => {
                            entries.insert(gi, (gkey, other));
                            proof {
                                crate::json::lemma_lookup_at_first_index(
                                    entries_view(orig),
                                    "geometry"@,
                                    gi as int,
                                );
                                assert(entries@ =~= orig);
                                assert(entries_view(entries@) =~= entries_view(orig));
                            }
                            Json::Obj(entries)
                        },
                    }
                },
                None => {
                    proof {
                        crate::json::lemma_lookup_absent(entries_view(orig), "geometry"@);
                    }
                    Json::Obj(entries)
                },
            }
        },
        other => other,
    }
}

/// Truncate the numbers under the feature's geometry coordinates to
/// `decimal` places, leaving everything else in place.
fn truncate_feature(feature: &mut Json, decimal: usize)
    ensures
        final(feature)@ == feature_truncated(old(feature)@, decimal as nat),
{
    let mut value = Json::Null;
    core::mem::swap(&mut value, feature);
    let value = truncate_feature_value(value, decimal);
    *feature = value;
}

} // verus!

verus! {

/// The key lists as the contracts see them: each list of strings becomes
/// a list of character sequences.
pub open spec fn opt_keys_view(keys: Option<&Vec<String>>) -> Option<Seq<Seq<char>>> {
    match keys {
        Some(ks) => Some(keys_view(ks@)),
        None => None,
    }
}

/// What processing one feature returns. The four steps run in a fixed
/// order — truncate coordinates, drop null-or-empty properties, remove
/// listed keys, keep listed keys — each one only when asked for, and all
/// of them only when the feature has a geometry object: a feature without
/// one is returned whole, its properties untouched.
pub open spec fn feature_processed(
    v: JsonView,
    decimal: Option<usize>,
    remove_null: bool,
    to_remove: Option<Seq<Seq<char>>>,
    to_keep: Option<Seq<Seq<char>>>,
) -> JsonView {
    if !has_geometry_object(v) {
        v
    } else {
        let v1 = match decimal {
            Some(d) => feature_truncated(v, d as nat),
            None => v,
        };
        let v2 = if remove_null {
            dropped_null_empty_props(v1)
        } else {
            v1
        };
        let v3 = match to_remove {
            Some(ks) => removed_props(v2, ks),
            None => v2,
        };
        match to_keep {
            Some(ks) => kept_props(v3, ks),
            None => v3,
        }
    }
}

/// Process one GeoJSON feature in place: round its coordinates when
/// `decimal` is given, then apply the requested property filters, in that
/// order. A document without a geometry object is left entirely alone.
pub fn process_feature(
    feature: &mut Json,
    decimal: Option<usize>,
    remove_null_properties: bool,
    properties_to_remove: Option<&Vec<String>>,
    properties_to_keep: Option<&Vec<String>>,
)
    ensures
        final(feature)@ == feature_processed(
            old(feature)@,
            decimal,
            remove_null_properties,
            opt_keys_view(properties_to_remove),
            opt_keys_view(properties_to_keep),
        ),
{
    if !geometry_is_object(feature) {
        return ;
    }
    if let Some(d) = decimal {
        truncate_feature(feature, d);
    }
    if remove_null_properties {
        remove_null_or_empty_properties(feature);
    }
    if let Some(keys) = properties_to_remove {
        remove_properties(feature, keys);
    }
    if let Some(keys) = properties_to_keep {
        keep_properties(feature, keys);
    }
}

/// A feature without a geometry object is left entirely unchanged by
/// [`process_feature`], whatever was asked of it — even a properties map
/// full of null values stays as it is.
pub proof fn lemma_no_geometry_no_change(
    v: JsonView,
    decimal: Option<usize>,
    remove_null: bool,
    to_remove: Option<Seq<Seq<char>>>,
    to_keep: Option<Seq<Seq<char>>>,
)
    requires
        !has_geometry_object(v),
    ensures
        feature_processed(v, decimal, remove_null, to_remove, to_keep) == v,
{
}

} // verus!


verus! {

/// Truncation rounds correctly: against the divisor `D = 10^(scale - d)`,
/// the chosen mantissa `m'` makes `m' * D` the multiple nearest the old
/// mantissa — within half of `D` either way, and exactly half a step
/// below only on a tie, which rounds the magnitude up.
pub proof fn lemma_trunc_num_nearest(n: Number, d: nat)
    requires
        d < n.scale,
    ensures
        ({
            let divisor = pow10((n.scale - d) as nat) as int;
            let rounded = trunc_num(n, d).mantissa as int;
            -divisor <= 2 * (n.mantissa - rounded * divisor) < divisor
        }),
{
    let m = n.mantissa as int;
    let divisor = pow10((n.scale - d) as nat) as int;
    lemma_pow10_positive((n.scale - d) as nat);
    let q = m / divisor;
    let r = m % divisor;
    vstd::arithmetic::div_mod::lemma_fundamental_div_mod(m, divisor);
    vstd::arithmetic::div_mod::lemma_mod_division_less_than_divisor(m, divisor);
    assert(m == q * divisor + r);
    assert(0 <= r < divisor);
    if n.mantissa > 0 {
        vstd::arithmetic::div_mod::lemma_div_is_strictly_smaller(m, divisor)
    } else {
        vstd::arithmetic::div_mod::lemma_basic_div(m, divisor);
    }
    assert(round_div_half_away(n.mantissa as nat, pow10((n.scale - d) as nat))
        <= n.mantissa);
    let rounded = trunc_num(n, d).mantissa as int;
    if 2 * r >= divisor {
        assert(rounded == q + 1);
        assert((q + 1) * divisor == q * divisor + divisor) by (nonlinear_arith);
    } else {
        assert(rounded == q);
    }
}

/// What truncation may change, and nothing else: numbers stay numbers,
/// arrays stay arrays of the same length with this holding of every
/// element, and every other value is exactly the old one.
pub open spec fn same_but_numbers(a: JsonView, b: JsonView) -> bool
    decreases a,
{
    match a {
        JsonView::Num(_) => b is Num,
        JsonView::Arr(items) => b is Arr && b->Arr_0.len() == items.len() && forall|i: int|
            0 <= i < items.len() ==> same_but_numbers(items[i], #[trigger] b->Arr_0[i]),
        _ => b == a,
    }
}

/// Truncating a coordinate structure keeps its shape: no element is added
/// or removed, no value changes its kind, and whatever is not a number
/// inside an array is left exactly as it was.
pub proof fn lemma_truncate_preserves_structure(v: JsonView, d: nat)
    ensures
        same_but_numbers(v, trunc_tree(v, d)),
    decreases v,
{
    match v {
        JsonView::Arr(items) => {
            assert forall|i: int|
                0 <= i < items.len() implies same_but_numbers(
                items[i],
                #[trigger] trunc_tree(v, d)->Arr_0[i],
            ) by {
                lemma_truncate_preserves_structure(items[i], d);
            }
        },
        _ => {},
    }
}

} // verus!
