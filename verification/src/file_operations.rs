use vstd::prelude::*;
use vstd::string::StrSliceExecFns;
use vstd::string::StringExecFns;

use crate::geo_operations::feature_processed;
use crate::geo_operations::opt_keys_view;
use crate::geo_operations::process_feature;
use crate::json::entries_view;
use crate::json::find_key;
use crate::json::items_view;
use crate::json::lookup;
use crate::json::set_first;
use crate::json::str_eq;
use crate::json::Json;
use crate::json::JsonView;

verus! {

broadcast use crate::json::lemma_view_shape, crate::json::lemma_items_view, crate::json::lemma_entries_view;

/// The features array of a document, when the document is an object whose
/// "features" value is an array.
pub open spec fn features_of(v: JsonView) -> Option<Seq<JsonView>> {
    match v {
        JsonView::Obj(entries) => match lookup(entries, "features"@) {
            Some(JsonView::Arr(features)) => Some(features),
            _ => None,
        },
        _ => None,
    }
}

/// What processing a whole document returns. A document with a "geometry"
/// key is taken for a single feature; otherwise one with a "features"
/// array has every element processed as a feature, in order; any other
/// document is returned unchanged.
pub open spec fn document_processed(
    v: JsonView,
    decimal: Option<usize>,
    remove_null: bool,
    to_remove: Option<Seq<Seq<char>>>,
    to_keep: Option<Seq<Seq<char>>>,
) -> JsonView {
    match v {
        JsonView::Obj(entries) => match lookup(entries, "geometry"@) {
            Some(_) => feature_processed(v, decimal, remove_null, to_remove, to_keep),
            None => match lookup(entries, "features"@) {
                Some(JsonView::Arr(features)) => JsonView::Obj(
                    set_first(
                        entries,
                        "features"@,
                        JsonView::Arr(
                            Seq::new(
                                features.len(),
                                |i: int|
                                    if 0 <= i < features.len() {
                                        feature_processed(
                                            features[i],
                                            decimal,
                                            remove_null,
                                            to_remove,
                                            to_keep,
                                        )
                                    } else {
                                        JsonView::Null
                                    },
                            ),
                        ),
                    ),
                ),
                _ => v,
            },
        },
        _ => v,
    }
}

/// Whether the document is an object holding a "geometry" key, whatever
/// that key's value is.
fn has_geometry_key(doc: &Json) -> (r: bool)
    ensures
        r == (doc@ is Obj && lookup(doc@->Obj_0, "geometry"@) is Some),
{
    match doc {
        Json::Obj(entries) => {
            match find_key(entries, "geometry") {
                Some(gi) => {
                    proof {
                        crate::json::lemma_lookup_at_first_index(
                            entries_view(entries@),
                            "geometry"@,
                            gi as int,
                        );
                    }
                    true
                },
                None => {
                    proof {
                        crate::json::lemma_lookup_absent(entries_view(entries@), "geometry"@);
                    }
                    false
                },
            }
        },
        _ => false,
    }
}

/// Each feature of the array processed in place, in order; the array's
/// length and the order of its elements are kept.
#[verifier::loop_isolation(false)]
fn process_features(
    features: Vec<Json>,
    decimal: Option<usize>,
    remove_null_properties: bool,
    properties_to_remove: Option<&Vec<String>>,
    properties_to_keep: Option<&Vec<String>>,
) -> (r: Vec<Json>)
    ensures
        r@.len() == features@.len(),
        forall|i: int|
            0 <= i < features@.len() ==> r@[i]@ == feature_processed(
                #[trigger] features@[i]@,
                decimal,
                remove_null_properties,
                opt_keys_view(properties_to_remove),
                opt_keys_view(properties_to_keep),
            ),
{
    let ghost orig = features@;
    let mut rest = features;
    let mut out: Vec<Json> = Vec::new();
    while rest.len() > 0
        invariant
            orig.len() == out@.len() + rest@.len(),
            forall|j: int|
                0 <= j < rest@.len() ==> rest@[j] == orig[out@.len() + j],
            forall|j: int|
                0 <= j < out@.len() ==> out@[j]@ == feature_processed(
                    #[trigger] orig[j]@,
                    decimal,
                    remove_null_properties,
                    opt_keys_view(properties_to_remove),
                    opt_keys_view(properties_to_keep),
                ),
        decreases rest@.len(),
    {
        let mut x = rest.remove(0);
        process_feature(
            &mut x,
            decimal,
            remove_null_properties,
            properties_to_remove,
            properties_to_keep,
        );
        out.push(x);
    }
    out
}

fn process_document_value(
    value: Json,
    decimal: Option<usize>,
    remove_null_properties: bool,
    properties_to_remove: Option<&Vec<String>>,
    properties_to_keep: Option<&Vec<String>>,
) -> (r: Json)
    requires
        !(value@ is Obj && lookup(value@->Obj_0, "geometry"@) is Some),
    ensures
        r@ == document_processed(
            value@,
            decimal,
            remove_null_properties,
            opt_keys_view(properties_to_remove),
            opt_keys_view(properties_to_keep),
        ),
{
    let ghost orig_value = value;
    match value {
        Json::Obj(entries) => {
            let mut entries = entries;
            let ghost orig = entries@;
            match find_key(&entries, "features") {
                Some(fi) => {
                    let (fkey, fval) = entries.remove(fi);
                    match fval {
                        Json::Arr(features) => {
                            let ghost forig = features@;
                            let processed = process_features(
                                features,
                                decimal,
                                remove_null_properties,
                                properties_to_remove,
                                properties_to_keep,
                            );
                            entries.insert(fi, (fkey, Json::Arr(processed)));
                            proof {
                                let ev = entries_view(orig);
                                crate::json::lemma_lookup_at_first_index(
                                    ev,
                                    "features"@,
                                    fi as int,
                                );
                                crate::json::lemma_set_first_at_index(
                                    ev,
                                    "features"@,
                                    fi as int,
                                    (Json::Arr(processed))@,
                                );
                                assert((Json::Arr(processed))@->Arr_0 =~= Seq::new(
                                    items_view(forig).len(),
                                    |i: int|
                                        if 0 <= i < items_view(forig).len() {
                                            feature_processed(
                                                items_view(forig)[i],
                                                decimal,
                                                remove_null_properties,
                                                opt_keys_view(properties_to_remove),
                                                opt_keys_view(properties_to_keep),
                                            )
                                        } else {
                                            JsonView::Null
                                        },
                                ));
                                assert(entries@ =~= orig.update(
                                    fi as int,
                                    (fkey, Json::Arr(processed)),
                                ));
                                assert(entries_view(entries@) =~= ev.update(
                                    fi as int,
                                    ("features"@, (Json::Arr(processed))@),
                                ));
                            }
                            Json::Obj(entries)
                        },
                        other => {
                            entries.insert(fi, (fkey, other));
                            proof {
                                crate::json::lemma_lookup_at_first_index(
                                    entries_view(orig),
                                    "features"@,
                                    fi as int,
                                );
                                assert(entries@ =~= orig);
                                assert(entries_view(entries@) =~= entries_view(orig));
                            }
                            Json::Obj(entries)
                        },
                    }
                },
                None => {
                    proof {
                        crate::json::lemma_lookup_absent(entries_view(orig), "features"@);
                    }
                    Json::Obj(entries)
                },
            }
        },
        other => other,
    }
}

/// Process a whole GeoJSON document in place. A document with a
/// "geometry" key is processed as one feature; otherwise every element of
/// its "features" array is processed in order; a document that is neither
/// is left unchanged, which is not an error.
pub fn process_geojson(
    geojson: &mut Json,
    decimal: Option<usize>,
    remove_null_properties: bool,
    properties_to_remove: Option<&Vec<String>>,
    properties_to_keep: Option<&Vec<String>>,
)
    ensures
        final(geojson)@ == document_processed(
            old(geojson)@,
            decimal,
            remove_null_properties,
            opt_keys_view(properties_to_remove),
            opt_keys_view(properties_to_keep),
        ),
{
    if has_geometry_key(geojson) {
        process_feature(
            geojson,
            decimal,
            remove_null_properties,
            properties_to_remove,
            properties_to_keep,
        );
        return ;
    }
    let mut value = Json::Null;
    core::mem::swap(&mut value, geojson);
    let value = process_document_value(
        value,
        decimal,
        remove_null_properties,
        properties_to_remove,
        properties_to_keep,
    );
    *geojson = value;
}

} // verus!

verus! {

/// Processing a document whose features array is present and that is not
/// itself a feature keeps the array's length and the order of its
/// elements: exactly the features change, each into its processed self.
pub proof fn lemma_collection_preserved(
    v: JsonView,
    decimal: Option<usize>,
    remove_null: bool,
    to_remove: Option<Seq<Seq<char>>>,
    to_keep: Option<Seq<Seq<char>>>,
)
    requires
        v is Obj,
        lookup(v->Obj_0, "geometry"@) is None,
        features_of(v) is Some,
    ensures
        ({
            let before = features_of(v)->0;
            let after = features_of(
                document_processed(v, decimal, remove_null, to_remove, to_keep),
            );
            &&& after is Some
            &&& after->0.len() == before.len()
            &&& forall|i: int|
                0 <= i < before.len() ==> after->0[i] == feature_processed(
                    #[trigger] before[i],
                    decimal,
                    remove_null,
                    to_remove,
                    to_keep,
                )
        }),
{
    let entries = v->Obj_0;
    let before = features_of(v)->0;
    let processed = JsonView::Arr(
        Seq::new(
            before.len(),
            |i: int|
                if 0 <= i < before.len() {
                    feature_processed(before[i], decimal, remove_null, to_remove, to_keep)
                } else {
                    JsonView::Null
                },
        ),
    );
    crate::json::lemma_lookup_set_first(entries, "features"@, processed);
}

/// Whether the parsed document looks like GeoJSON: it holds a "geometry"
/// key whose value holds a "coordinates" key whose value is an array.
pub open spec fn is_geojson_like(v: JsonView) -> bool {
    match v {
        JsonView::Obj(entries) => match lookup(entries, "geometry"@) {
            Some(JsonView::Obj(gentries)) => match lookup(gentries, "coordinates"@) {
                Some(c) => c is Arr,
                _ => false,
            },
            _ => false,
        },
        _ => false,
    }
}

/// Whether the parsed document looks like GeoJSON; see [`is_geojson_like`].
pub fn is_geojson(parsed_json: &Json) -> (r: bool)
    ensures
        r == is_geojson_like(parsed_json@),
{
    match parsed_json {
        Json::Obj(entries) => {
            match find_key(entries, "geometry") {
                Some(gi) => {
                    proof {
                        crate::json::lemma_lookup_at_first_index(
                            entries_view(entries@),
                            "geometry"@,
                            gi as int,
                        );
                    }
                    match &entries[gi].1 {
                        Json::Obj(gentries) => {
                            match find_key(gentries, "coordinates") {
                                Some(ci) => {
                                    proof {
                                        crate::json::lemma_lookup_at_first_index(
                                            entries_view(gentries@),
                                            "coordinates"@,
                                            ci as int,
                                        );
                                    }
                                    match &gentries[ci].1 {
                                        Json::Arr(_) => true,
                                        _ => false,
                                    }
                                },
                                None => {
                                    proof {
                                        crate::json::lemma_lookup_absent(
                                            entries_view(gentries@),
                                            "coordinates"@,
                                        );
                                    }
                                    false
                                },
                            }
                        },
                        _ => false,
                    }
                },
                None => {
                    proof {
                        crate::json::lemma_lookup_absent(entries_view(entries@), "geometry"@);
                    }
                    false
                },
            }
        },
        _ => false,
    }
}

} // verus!

verus! {

/// The errors this library can raise of its own: failures of the
/// surrounding file handling (unreadable input, unparsable JSON) are the
/// caller's to represent and wrap.
#[derive(Debug)]
pub enum MyError {
    /// No output filename can be derived from the input path.
    InvalidFilename,
    /// The output file exists and overwriting was not requested.
    FileExists,
    /// The output directory could not be created.
    DirectoryCreationError(String),
}

/// The two input file extensions this tool recognises.
#[derive(Debug, Clone, Copy, PartialEq, Eq, Structural)]
pub enum FileExtension {
    GeoJson,
    Json,
}

/// Relies on String::push, which appends exactly the one character.
pub assume_specification[ String::push ](s: &mut String, ch: char)
    ensures
        final(s)@ == old(s)@.push(ch),
;

/// The extension this tool recognises `ext` as, if any.
pub fn extract_file_extension(ext: &str) -> (r: Option<FileExtension>)
    ensures
        ext@ == "geojson"@ ==> r == Some(FileExtension::GeoJson),
        ext@ == "json"@ ==> r == Some(FileExtension::Json),
        ext@ != "geojson"@ && ext@ != "json"@ ==> r is None,
{
    proof {
        reveal_strlit("geojson");
        reveal_strlit("json");
        assert("geojson"@.len() == 7);
        assert("json"@.len() == 4);
    }
    if str_eq(ext, "geojson") {
        Some(FileExtension::GeoJson)
    } else if str_eq(ext, "json") {
        Some(FileExtension::Json)
    } else {
        None
    }
}

/// Put `prefix` in front of `filename`.
pub fn add_prefix_to_filename(filename: &str, prefix: &str) -> (r: String)
    ensures
        r@ == prefix@ + filename@,
{
    let mut s: String = prefix.to_owned();
    s.append(filename);
    s
}

} // verus!

verus! {

/// Whether `s` ends with `suffix`.
pub open spec fn ends_with(s: Seq<char>, suffix: Seq<char>) -> bool {
    s.len() >= suffix.len() && s.skip(s.len() - suffix.len()) == suffix
}

/// The characters after the last `c` in `s` — the whole of `s` when it
/// holds none.
pub open spec fn after_last(s: Seq<char>, c: char) -> Seq<char>
    decreases s.len(),
{
    if s.len() == 0 {
        s
    } else if s.last() == c {
        Seq::empty()
    } else {
        after_last(s.drop_last(), c).push(s.last())
    }
}

/// [`after_last`] read off a scan from the end: when nothing at `k` or
/// beyond is `c`, and `k` sits just after a `c` or at the start, the
/// characters after the last `c` are exactly the tail from `k`.
pub proof fn lemma_after_last(s: Seq<char>, c: char, k: int)
    requires
        0 <= k <= s.len(),
        k == 0 || s[k - 1] == c,
        forall|j: int| k <= j < s.len() ==> s[j] != c,
    ensures
        after_last(s, c) == s.skip(k),
    decreases s.len(),
{
    if k == s.len() {
        assert(after_last(s, c) =~= s.skip(k));
    } else {
        lemma_after_last(s.drop_last(), c, k);
        assert(s.drop_last().skip(k).push(s.last()) =~= s.skip(k));
    }
}

/// The final path component, as std's Path::file_name reads a Unix path:
/// trailing slashes and trailing "." components are ignored, and a path
/// that ends at the root, at "." or at ".." has no file name.
pub open spec fn spec_file_name(s: Seq<char>) -> Option<Seq<char>>
    decreases s.len(),
{
    if s.len() == 0 {
        None
    } else if s.last() == '/' {
        spec_file_name(s.drop_last())
    } else if s.last() == '.' && s.len() == 1 {
        None
    } else if s.last() == '.' && s[s.len() - 2] == '/' {
        spec_file_name(s.drop_last())
    } else {
        let name = after_last(s, '/');
        if name == seq!['.', '.'] {
            None
        } else {
            Some(name)
        }
    }
}

/// Whether `name` holds a '.' anywhere past its first character — a name
/// that is all extension, like ".geojson", counts as having none.
pub open spec fn has_extension_dot(name: Seq<char>) -> bool {
    exists|j: int| 1 <= j < name.len() && name[j] == '.'
}

/// The extension, as std's Path::extension reads it off the file name.
pub open spec fn spec_extension(name: Seq<char>) -> Option<Seq<char>> {
    if has_extension_dot(name) {
        Some(after_last(name, '.'))
    } else {
        None
    }
}

/// The final path component of `path`, if it has one.
fn file_name_of(path: &str) -> (r: Option<String>)
    ensures
        match r {
            Some(name) => spec_file_name(path@) == Some(name@),
            None => spec_file_name(path@) is None,
        },
    decreases path@.len(),
{
    let n = path.unicode_len();
    if n == 0 {
        return None;
    }
    if path.get_char(n - 1) == '/' {
        let sub = path.substring_char(0, n - 1);
        proof {
            assert(sub@ =~= path@.drop_last());
        }
        return file_name_of(sub);
    }
    if path.get_char(n - 1) == '.' {
        if n == 1 {
            return None;
        }
        if path.get_char(n - 2) == '/' {
            let sub = path.substring_char(0, n - 1);
            proof {
                assert(sub@ =~= path@.drop_last());
            }
            return file_name_of(sub);
        }
    }
    let mut k: usize = n;
    while k > 0 && path.get_char(k - 1) != '/'
        invariant
            k <= n,
            n == path@.len(),
            forall|j: int| k <= j < n ==> path@[j] != '/',
        decreases k,
    {
        k = k - 1;
    }
    proof {
        lemma_after_last(path@, '/', k as int);
    }
    let name = path.substring_char(k, n);
    proof {
        assert(name@ =~= path@.skip(k as int));
    }
    if name.unicode_len() == 2 && name.get_char(0) == '.' && name.get_char(1) == '.' {
        proof {
            assert(name@ =~= seq!['.', '.']);
        }
        return None;
    }
    Some(name.to_owned())
}

/// The extension of the file name `name`, if std would read one off it.
fn extension_of(name: &str) -> (r: Option<String>)
    ensures
        match r {
            Some(ext) => spec_extension(name@) == Some(ext@),
            None => spec_extension(name@) is None,
        },
{
    let n = name.unicode_len();
    let mut k: usize = n;
    while k > 0 && name.get_char(k - 1) != '.'
        invariant
            k <= n,
            n == name@.len(),
            forall|j: int| k <= j < n ==> name@[j] != '.',
        decreases k,
    {
        k = k - 1;
    }
    if k <= 1 {
        return None;
    }
    proof {
        lemma_after_last(name@, '.', k as int);
        assert(name@[k - 1] == '.');
    }
    let ext = name.substring_char(k, n);
    proof {
        assert(ext@ =~= name@.skip(k as int));
    }
    Some(ext.to_owned())
}

/// What filename extraction returns: the path's final component, and only
/// when that component carries a recognised extension.
pub open spec fn spec_extract_filename(path: Seq<char>) -> Option<Seq<char>> {
    match spec_file_name(path) {
        Some(name) => match spec_extension(name) {
            Some(ext) => if ext == "geojson"@ || ext == "json"@ {
                Some(name)
            } else {
                None
            },
            None => None,
        },
        None => None,
    }
}

/// Extract the filename from a path ("/home/user/input.geojson" gives
/// "input.geojson"), hand a bare filename back as it is, and return
/// nothing when the path carries no filename, or one without a
/// recognised extension.
pub fn extract_filename_from_path(path: &str) -> (r: Option<String>)
    ensures
        match r {
            Some(name) => spec_extract_filename(path@) == Some(name@),
            None => spec_extract_filename(path@) is None,
        },
{
    match file_name_of(path) {
        Some(name) => {
            match extension_of(name.as_str()) {
                Some(ext) => {
                    if extract_file_extension(ext.as_str()).is_some() {
                        Some(name)
                    } else {
                        None
                    }
                },
                None => None,
            }
        },
        None => None,
    }
}

} // verus!

verus! {

/// The characters the output path may not carry.
pub open spec fn is_forbidden_char(c: char) -> bool {
    c == '?' || c == '%' || c == '*' || c == ':' || c == '|' || c == '"' || c == '<' || c == '>'
}

/// The path with forbidden characters dropped and spaces turned into
/// underscores, character by character.
pub open spec fn cleaned_chars(s: Seq<char>) -> Seq<char>
    decreases s.len(),
{
    if s.len() == 0 {
        s
    } else {
        let rest = cleaned_chars(s.drop_last());
        if is_forbidden_char(s.last()) {
            rest
        } else if s.last() == ' ' {
            rest.push('_')
        } else {
            rest.push(s.last())
        }
    }
}

/// The path with its trailing '-' and '_' characters dropped.
pub open spec fn trimmed_end(s: Seq<char>) -> Seq<char>
    decreases s.len(),
{
    if s.len() > 0 && (s.last() == '-' || s.last() == '_') {
        trimmed_end(s.drop_last())
    } else {
        s
    }
}

/// The path with every trailing ".json" dropped, one after the other.
pub open spec fn stripped_json_suffixes(s: Seq<char>) -> Seq<char>
    decreases s.len(),
{
    if s.len() >= 5 && ends_with(s, ".json"@) {
        stripped_json_suffixes(s.take(s.len() - 5))
    } else {
        s
    }
}

/// The extension rule every produced path obeys: a name already ending
/// in ".geojson" stays; otherwise its trailing ".json" endings are
/// dropped and ".geojson" is appended.
pub open spec fn with_geojson_extension(s: Seq<char>) -> Seq<char> {
    if ends_with(s, ".geojson"@) {
        s
    } else {
        stripped_json_suffixes(s) + ".geojson"@
    }
}

/// What sanitising an output path returns: forbidden characters dropped,
/// spaces turned to underscores, trailing dashes and underscores trimmed,
/// and the extension normalised to ".geojson".
pub open spec fn spec_sanitize_output(s: Seq<char>) -> Seq<char> {
    with_geojson_extension(trimmed_end(cleaned_chars(s)))
}

/// Whether the character before position `m` is a '-' or a '_'.
fn dash_or_underscore_before(s: &String, m: usize) -> (r: bool)
    requires
        1 <= m <= s@.len(),
    ensures
        r == (s@[m - 1] == '-' || s@[m - 1] == '_'),
{
    let c = s.as_str().get_char(m - 1);
    c == '-' || c == '_'
}

/// Whether `s` ends with `suffix`; see [`ends_with`].
fn ends_with_str(s: &str, suffix: &str) -> (r: bool)
    ensures
        r == ends_with(s@, suffix@),
{
    let n = s.unicode_len();
    let m = suffix.unicode_len();
    if n < m {
        return false;
    }
    let tail = s.substring_char(n - m, n);
    proof {
        assert(tail@ =~= s@.skip(n - m));
    }
    str_eq(tail, suffix)
}

/// Sanitise the output path; see [`spec_sanitize_output`] for what comes
/// out.
#[verifier::loop_isolation(false)]
pub fn sanitize_output_path(output_path: &str) -> (r: String)
    ensures
        r@ == spec_sanitize_output(output_path@),
{
    let n = output_path.unicode_len();
    let mut cleaned = String::new();
    let mut i: usize = 0;
    while i < n
        invariant
            n == output_path@.len(),
            i <= n,
            cleaned@ == cleaned_chars(output_path@.take(i as int)),
        decreases n - i,
    {
        let c = output_path.get_char(i);
        proof {
            assert(output_path@.take(i + 1).drop_last() =~= output_path@.take(i as int));
        }
        if c == '?' || c == '%' || c == '*' || c == ':' || c == '|' || c == '"' || c == '<'
            || c == '>' {
        } else if c == ' ' {
            cleaned.push('_');
        } else {
            cleaned.push(c);
        }
        i = i + 1;
    }
    proof {
        assert(output_path@.take(n as int) =~= output_path@);
    }
    let mut m: usize = cleaned.as_str().unicode_len();
    proof {
        assert(cleaned@.take(cleaned@.len() as int) =~= cleaned@);
    }
    while m > 0 && dash_or_underscore_before(&cleaned, m)
        invariant
            m <= cleaned@.len(),
            trimmed_end(cleaned@) == trimmed_end(cleaned@.take(m as int)),
        decreases m,
    {
        proof {
            assert(cleaned@.take(m as int).drop_last() =~= cleaned@.take(m - 1));
        }
        m = m - 1;
    }
    let trimmed: String = cleaned.as_str().substring_char(0, m).to_owned();
    proof {
        assert(trimmed@ =~= cleaned@.take(m as int));
    }
    normalize_extension(trimmed)
}

/// Normalise a name's extension to ".geojson"; see
/// [`with_geojson_extension`].
#[verifier::loop_isolation(false)]
fn normalize_extension(name: String) -> (r: String)
    ensures
        r@ == with_geojson_extension(name@),
{
    if ends_with_str(name.as_str(), ".geojson") {
        name
    } else {
        let ghost t0 = name@;
        let mut t = name;
        while ends_with_str(t.as_str(), ".json")
            invariant
                stripped_json_suffixes(t@) == stripped_json_suffixes(t0),
            decreases t@.len(),
        {
            proof {
                reveal_strlit(".json");
            }
            let len = t.as_str().unicode_len();
            let shorter: String = t.as_str().substring_char(0, len - 5).to_owned();
            proof {
                assert(shorter@ =~= t@.take(t@.len() - 5));
            }
            t = shorter;
        }
        proof {
            reveal_strlit(".json");
        }
        t.append(".geojson");
        t
    }
}

} // verus!

verus! {

/// Base and file name joined the way std's PathBuf::push joins a
/// relative name onto a base path.
pub open spec fn path_joined(base: Seq<char>, name: Seq<char>) -> Seq<char> {
    if base.len() == 0 {
        name
    } else if base.last() == '/' {
        base + name
    } else {
        base + seq!['/'] + name
    }
}

/// What resolving the output path returns: the sanitised output path, or,
/// when the output names a directory (it ends in '/' or is the default
/// "./output/"), that directory joined with the input's filename behind a
/// "min_" prefix — that name's extension normalised to ".geojson" like
/// any other; nothing when no filename can be drawn from the input.
pub open spec fn spec_resolve_output(input: Seq<char>, output: Seq<char>) -> Option<
    Seq<char>,
> {
    let sanitized = spec_sanitize_output(output);
    if sanitized == "./output/"@ || ends_with(output, "/"@) {
        match spec_extract_filename(input) {
            Some(name) => Some(
                path_joined(sanitized, with_geojson_extension("min_"@ + name)),
            ),
            None => None,
        }
    } else {
        Some(sanitized)
    }
}

/// Resolve where the output file will go, from the input and output paths
/// as given on the command line; an input path that yields no usable
/// filename is the caller's [`MyError::InvalidFilename`].
///
/// Whether that place is free to write, and making its directory, are the
/// caller's business.
pub fn resolve_output_path(input: &str, output: &str) -> (r: Result<String, MyError>)
    ensures
        match spec_resolve_output(input@, output@) {
            Some(p) => r matches Ok(s) && s@ == p,
            None => r matches Err(e) && e is InvalidFilename,
        },
{
    let sanitized = sanitize_output_path(output);
    proof {
        reveal_strlit(".geojson");
        assert(".geojson"@.len() == 8);
        assert(sanitized@.len() >= 8);
    }
    if str_eq(sanitized.as_str(), "./output/") || ends_with_str(output, "/") {
        match extract_filename_from_path(input) {
            Some(filename) => {
                let prefixed = normalize_extension(
                    add_prefix_to_filename(filename.as_str(), "min_"),
                );
                let mut base = sanitized;
                let n = base.as_str().unicode_len();
                if n > 0 && base.as_str().get_char(n - 1) == '/' {
                    base.append(prefixed.as_str());
                } else {
                    base.append("/");
                    proof {
                        reveal_strlit("/");
                        assert("/"@ =~= seq!['/']);
                    }
                    base.append(prefixed.as_str());
                }
                Ok(base)
            },
            None => Err(MyError::InvalidFilename),
        }
    } else {
        Ok(sanitized)
    }
}

} // verus!
