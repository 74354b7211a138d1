//! Choices made on behalf of the user: which files of a directory are
//! uploaded, and which label a matching model offers to a model being
//! classified.

use vstd::prelude::*;
use crate::model::{
    first_folder_with_id, FolderView, ListOfFolders, MetadataItemView, ModelMatch, ModelMatchView,
    ModelMetadata, ModelMetadataItem,
};
use crate::text_map::TextMap;
use crate::text::{chars_eq_ignore_ascii_case, eq_ignore_ascii_case, str_eq, to_lowercase, unicode_lower};

verus! {

/// The file types the service accepts, by lower-case extension.
pub open spec fn supported_extensions() -> Seq<Seq<char>> {
    seq![
        "3ds"@, "catpart"@, "catproduct"@, "glb"@, "igs"@, "iges"@, "prt"@, "x_b"@, "x_t"@,
        "asm"@, "par"@, "sldasm"@, "sldprt"@, "step"@, "stp"@, "stl"@, "ojb"@, "jt"@,
    ]
}

/// The extension of a file name: what follows its last dot, or nothing
/// when it has no dot.
pub open spec fn extension_of(name: Seq<char>) -> Seq<char> {
    if exists|i: int| 0 <= i < name.len() && name[i] == '.' {
        let last = choose|i: int|
            0 <= i < name.len() && name[i] == '.' && forall|j: int| i < j < name.len() ==> name[j] != '.';
        name.subrange(last + 1, name.len() as int)
    } else {
        Seq::empty()
    }
}

/// The files uploaded from a directory are those whose extension, in lower
/// case, is one of 3ds, catpart, catproduct, glb, igs, iges, prt, x_b, x_t,
/// asm, par, sldasm, sldprt, step, stp, stl, ojb and jt, and no others.
pub proof fn lemma_supported_types_are_the_whitelist(name: Seq<char>)
    ensures
        supported_extensions().contains(unicode_lower(extension_of(name))) <==> {
            let e = unicode_lower(extension_of(name));
            ||| e == "3ds"@
                ||| e == "catpart"@
                ||| e == "catproduct"@
                ||| e == "glb"@
                ||| e == "igs"@
                ||| e == "iges"@
                ||| e == "prt"@
                ||| e == "x_b"@
                ||| e == "x_t"@
                ||| e == "asm"@
                ||| e == "par"@
                ||| e == "sldasm"@
                ||| e == "sldprt"@
                ||| e == "step"@
                ||| e == "stp"@
                ||| e == "stl"@
                ||| e == "ojb"@
                ||| e == "jt"@
        },
{
    let w = supported_extensions();
    let e = unicode_lower(extension_of(name));
    assert(w.len() == 18);
        assert(w[0] == "3ds"@);
        assert(w[1] == "catpart"@);
        assert(w[2] == "catproduct"@);
        assert(w[3] == "glb"@);
        assert(w[4] == "igs"@);
        assert(w[5] == "iges"@);
        assert(w[6] == "prt"@);
        assert(w[7] == "x_b"@);
        assert(w[8] == "x_t"@);
        assert(w[9] == "asm"@);
        assert(w[10] == "par"@);
        assert(w[11] == "sldasm"@);
        assert(w[12] == "sldprt"@);
        assert(w[13] == "step"@);
        assert(w[14] == "stp"@);
        assert(w[15] == "stl"@);
        assert(w[16] == "ojb"@);
        assert(w[17] == "jt"@);
    if w.contains(e) {
        let i = choose|i: int| 0 <= i < w.len() && w[i] == e;
    }
}

/// A name with a dot at `k` has a last dot.
proof fn lemma_last_dot_exists(name: Seq<char>, k: int)
    requires
        0 <= k < name.len(),
        name[k] == '.',
    ensures
        exists|i: int| 0 <= i < name.len() && name[i] == '.' && forall|j: int| i < j < name.len() ==> name[j] != '.',
    decreases name.len() - k,
{
    if exists|j: int| k < j < name.len() && name[j] == '.' {
        let j = choose|j: int| k < j < name.len() && name[j] == '.';
        lemma_last_dot_exists(name, j);
    } else {
        assert(0 <= k < name.len() && name[k] == '.' && forall|j: int| k < j < name.len() ==> name[j] != '.');
    }
}

/// The extension of a file name holds no dot; when the name has a dot, the
/// name is what comes before its last dot, the dot, and the extension.
pub proof fn lemma_extension_follows_last_dot(name: Seq<char>)
    ensures
        forall|i: int| 0 <= i < extension_of(name).len() ==> extension_of(name)[i] != '.',
        (exists|i: int| 0 <= i < name.len() && name[i] == '.') ==> {
            let cut = name.len() - extension_of(name).len() - 1;
            &&& 0 <= cut < name.len()
            &&& name[cut] == '.'
            &&& name.subrange(cut + 1, name.len() as int) == extension_of(name)
        },
        !(exists|i: int| 0 <= i < name.len() && name[i] == '.') ==> extension_of(name).len() == 0,
{
    if exists|i: int| 0 <= i < name.len() && name[i] == '.' {
        let k = choose|i: int| 0 <= i < name.len() && name[i] == '.';
        lemma_last_dot_exists(name, k);
        let last = choose|i: int|
            0 <= i < name.len() && name[i] == '.' && forall|j: int| i < j < name.len() ==> name[j] != '.';
        let ext = extension_of(name);
        assert(ext == name.subrange(last + 1, name.len() as int));
        assert forall|i: int| 0 <= i < ext.len() implies ext[i] != '.' by {
            assert(ext[i] == name[last + 1 + i]);
        }
    }
}

/// The extension of a file name.
pub fn file_extension(name: &str) -> (ext: String)
    ensures
        ext@ == extension_of(name@),
{
    let n = name.unicode_len();
    let mut i: usize = n;
    while i > 0
        invariant
            i <= n,
            n == name@.len(),
            forall|j: int| i <= j < n ==> name@[j] != '.',
        decreases i,
    {
        if name.get_char(i - 1) == '.' {
            proof {
                let last = choose|k: int|
                    0 <= k < name@.len() && name@[k] == '.' && forall|j: int|
                        k < j < name@.len() ==> name@[j] != '.';
                assert(name@[i - 1] == '.');
                if last < i - 1 {
                } else if last > i - 1 {
                }
            }
            return name.substring_char(i, n).to_string();
        }
        i -= 1;
    }
    String::new()
}

/// Whether a file of this name is of a type the service accepts: its
/// extension, in lower case, is a supported one.
pub fn is_supported_file(name: &str) -> (r: bool)
    ensures
        r == supported_extensions().contains(unicode_lower(extension_of(name@))),
{
    let ext = to_lowercase(file_extension(name).as_str());
    let known: Vec<&str> = vec![
        "3ds", "catpart", "catproduct", "glb", "igs", "iges", "prt", "x_b", "x_t", "asm", "par",
        "sldasm", "sldprt", "step", "stp", "stl", "ojb", "jt",
    ];
    let mut i: usize = 0;
    while i < known.len()
        invariant
            i <= known@.len(),
            known@.len() == supported_extensions().len(),
            ext@ == unicode_lower(extension_of(name@)),
            forall|j: int| 0 <= j < known@.len() ==> #[trigger] known@[j]@ == supported_extensions()[j],
            forall|j: int| 0 <= j < i ==> supported_extensions()[j] != ext@,
        decreases known@.len() - i,
    {
        if str_eq(known[i], ext.as_str()) {
            assert(supported_extensions()[i as int] == ext@);
            assert(supported_extensions().contains(ext@));
            return true;
        }
        i += 1;
    }
    false
}

/// Index of the last item with the given name, if any.
pub open spec fn last_named(items: Seq<MetadataItemView>, name: Seq<char>) -> Option<int> {
    if exists|i: int| 0 <= i < items.len() && items[i].name == name {
        Some(choose|i: int|
            0 <= i < items.len() && items[i].name == name && forall|j: int|
                i < j < items.len() ==> items[j].name != name)
    } else {
        None
    }
}

proof fn lemma_last_named_exists(items: Seq<MetadataItemView>, name: Seq<char>, k: int)
    requires
        0 <= k < items.len(),
        items[k].name == name,
    ensures
        exists|i: int|
            0 <= i < items.len() && items[i].name == name && forall|j: int| i < j < items.len() ==> items[j].name != name,
    decreases items.len() - k,
{
    if exists|j: int| k < j < items.len() && items[j].name == name {
        let j = choose|j: int| k < j < items.len() && items[j].name == name;
        lemma_last_named_exists(items, name, j);
    } else {
        assert(0 <= k < items.len() && items[k].name == name && forall|j: int| k < j < items.len() ==> items[j].name != name);
    }
}

/// The item found for a name is the last item with that name, and none is
/// found exactly when no item has it.
pub proof fn lemma_last_named_is_last_with_name(items: Seq<MetadataItemView>, name: Seq<char>)
    ensures
        last_named(items, name) is None <==> forall|k: int| 0 <= k < items.len() ==> (#[trigger] items[k]).name != name,
        last_named(items, name) matches Some(i) ==> {
            &&& 0 <= i < items.len()
            &&& items[i].name == name
            &&& forall|j: int| i < j < items.len() ==> (#[trigger] items[j]).name != name
        },
{
    if exists|k: int| 0 <= k < items.len() && items[k].name == name {
        let k = choose|k: int| 0 <= k < items.len() && items[k].name == name;
        lemma_last_named_exists(items, name, k);
    }
}

/// The label a matching model offers for a classification: its (last)
/// property of that name, unless the value reads `unclassified` in any
/// ASCII case.
pub fn offered_label(meta: &ModelMetadata, classification: &str) -> (r: Option<ModelMetadataItem>)
    ensures
        ({
            let items = meta.properties.deep_view();
            match last_named(items, classification@) {
                Some(i) => if chars_eq_ignore_ascii_case(items[i].value, "unclassified"@) {
                    r is None
                } else {
                    r matches Some(it) && it@ == items[i]
                },
                None => r is None,
            }
        }),
{
    let ghost items = meta.properties.deep_view();
    let props = &meta.properties;
    let mut i: usize = props.len();
    while i > 0
        invariant
            i <= props@.len(),
            items == props.deep_view(),
            items == meta.properties.deep_view(),
            forall|j: int| i <= j < props@.len() ==> items[j].name != classification@,
        decreases i,
    {
        if str_eq(props[i - 1].name.as_str(), classification) {
            proof {
                assert(items[i - 1] == props@[i - 1]@);
                assert(0 <= i - 1 < items.len() && items[i - 1].name == classification@ && forall|j: int|
                    i - 1 < j < items.len() ==> items[j].name != classification@);
                let k = last_named(items, classification@)->0;
                if k < i - 1 {
                } else if k > i - 1 {
                }
                assert(last_named(items, classification@) == Some((i - 1) as int));
            }
            let unclassified = eq_ignore_ascii_case(props[i - 1].value.as_str(), "unclassified");
            assert(unclassified == chars_eq_ignore_ascii_case(
                items[i - 1].value,
                "unclassified"@,
            ));
            if unclassified {
                return None;
            }
            let copy = props[i - 1].duplicate();
            assert(copy@ == items[i - 1]);
            return Some(copy);
        }
        i -= 1;
    }
    None
}

/// Whether a match counts for classifying a model: always, unless only
/// the chosen folders count, in which case the match's folder (the first
/// folder with its id) must bear one of the chosen names.
pub fn match_counts(existing: &ListOfFolders, chosen: &Vec<String>, exclusive: bool, folder_id: u32) -> (r:
    bool)
    requires
        first_folder_with_id(existing.spec_folders(), folder_id) is Some,
    ensures
        r == (!exclusive || chosen.deep_view().contains(
            existing.spec_folders()[first_folder_with_id(existing.spec_folders(), folder_id)->0].name,
        )),
{
    let folder = existing.get_folder_by_id(&folder_id);
    match folder {
        Some(f) => {
            if !exclusive {
                return true;
            }
            let ghost names = chosen.deep_view();
            let mut i: usize = 0;
            while i < chosen.len()
                invariant
                    i <= chosen@.len(),
                    names == chosen.deep_view(),
                    exclusive,
                    first_folder_with_id(existing.spec_folders(), folder_id) is Some,
                    f@ == existing.spec_folders()[first_folder_with_id(existing.spec_folders(), folder_id)->0],
                    forall|j: int| 0 <= j < i ==> names[j] != f.name@,
                decreases chosen@.len() - i,
            {
                if str_eq(chosen[i].as_str(), f.name.as_str()) {
                    assert(names[i as int] == f.name@);
                    assert(names.contains(f.name@));
                    return true;
                }
                i += 1;
            }
            false
        },
        None => false,
    }
}

/// A `key=value` pair: the text before and after its only `=`; a text
/// with no `=` or with several is no pair.
pub open spec fn key_value(s: Seq<char>) -> Option<(Seq<char>, Seq<char>)> {
    if exists|i: int|
        0 <= i < s.len() && s[i] == '=' && forall|j: int| 0 <= j < s.len() && j != i ==> s[j] != '=' {
        let i = choose|i: int|
            0 <= i < s.len() && s[i] == '=' && forall|j: int| 0 <= j < s.len() && j != i ==> s[j] != '=';
        Some((s.subrange(0, i), s.subrange(i + 1, s.len() as int)))
    } else {
        None
    }
}

/// Whether the text holds `=` at position `i`.
pub open spec fn equals_at(s: Seq<char>, i: int) -> bool {
    0 <= i < s.len() && s[i] == '='
}

/// A pair is the text around its only `=`: the key, `=` and the value
/// make up the text, and neither holds `=`; a text with no `=`, or with
/// `=` at two places, is no pair.
pub proof fn lemma_key_value_splits_at_only_equals(s: Seq<char>)
    ensures
        key_value(s) matches Some((k, v)) ==> {
            &&& s == k + seq!['='] + v
            &&& forall|i: int| 0 <= i < k.len() ==> #[trigger] k[i] != '='
            &&& forall|i: int| 0 <= i < v.len() ==> #[trigger] v[i] != '='
        },
        key_value(s) is None <==> ((forall|i: int| !#[trigger] equals_at(s, i)) || exists|i: int, j: int|
            i < j && #[trigger] equals_at(s, i) && #[trigger] equals_at(s, j)),
{
    if key_value(s) is Some {
        lemma_key_value_some(s);
    } else {
        lemma_key_value_none(s);
    }
}

proof fn lemma_key_value_some(s: Seq<char>)
    requires
        key_value(s) is Some,
    ensures
        key_value(s) matches Some((k, v)) ==> {
            &&& s == k + seq!['='] + v
            &&& forall|i: int| 0 <= i < k.len() ==> #[trigger] k[i] != '='
            &&& forall|i: int| 0 <= i < v.len() ==> #[trigger] v[i] != '='
        },
        !(forall|i: int| !#[trigger] equals_at(s, i)),
        !exists|i: int, j: int| i < j && #[trigger] equals_at(s, i) && #[trigger] equals_at(s, j),
{
    let i = choose|i: int|
        0 <= i < s.len() && s[i] == '=' && forall|j: int| 0 <= j < s.len() && j != i ==> s[j] != '=';
    let k = s.subrange(0, i);
    let v = s.subrange(i + 1, s.len() as int);
    assert(s =~= k + seq!['='] + v);
    assert forall|a: int| 0 <= a < k.len() implies #[trigger] k[a] != '=' by {
        assert(k[a] == s[a]);
    }
    assert forall|a: int| 0 <= a < v.len() implies #[trigger] v[a] != '=' by {
        assert(v[a] == s[i + 1 + a]);
    }
    assert(equals_at(s, i));
    assert forall|a: int, b: int| a < b && #[trigger] equals_at(s, a) implies !#[trigger] equals_at(s, b) by {
        if a != i {
            assert(s[a] != '=');
        } else if 0 <= b < s.len() {
            assert(s[b] != '=');
        }
    }
}

proof fn lemma_key_value_none(s: Seq<char>)
    requires
        key_value(s) is None,
    ensures
        (forall|i: int| !#[trigger] equals_at(s, i)) || exists|i: int, j: int|
            i < j && #[trigger] equals_at(s, i) && #[trigger] equals_at(s, j),
{
    if exists|i: int| equals_at(s, i) {
        let i = choose|i: int| equals_at(s, i);
        assert(s[i] == '=');
        assert(exists|j: int| 0 <= j < s.len() && j != i && s[j] == '=') by {
            if !exists|j: int| 0 <= j < s.len() && j != i && s[j] == '=' {
                assert(0 <= i < s.len() && s[i] == '=' && forall|j: int| 0 <= j < s.len() && j != i ==> s[j] != '=');
            }
        }
        let j = choose|j: int| 0 <= j < s.len() && j != i && s[j] == '=';
        assert(equals_at(s, j));
        if i < j {
            assert(i < j && equals_at(s, i) && equals_at(s, j));
        } else {
            assert(j < i && equals_at(s, j) && equals_at(s, i));
        }
    }
}

/// Splits a `key=value` pair at its only `=`.
pub fn split_pair(pair: &str) -> (r: Option<(String, String)>)
    ensures
        match key_value(pair@) {
            Some((k, v)) => r matches Some((a, b)) && a@ == k && b@ == v,
            None => r is None,
        },
{
    let n = pair.unicode_len();
    let mut found: Option<usize> = None;
    let mut i: usize = 0;
    while i < n
        invariant
            i <= n,
            n == pair@.len(),
            match found {
                Some(f) => f < i && pair@[f as int] == '=' && forall|j: int|
                    0 <= j < i && j != f ==> pair@[j] != '=',
                None => forall|j: int| 0 <= j < i ==> pair@[j] != '=',
            },
        decreases n - i,
    {
        if pair.get_char(i) == '=' {
            match found {
                Some(f) => {
                    proof {
                        if key_value(pair@) is Some {
                            let k = choose|k: int|
                                0 <= k < pair@.len() && pair@[k] == '=' && forall|j: int|
                                    0 <= j < pair@.len() && j != k ==> pair@[j] != '=';
                            assert(pair@[f as int] == '=');
                            assert(pair@[i as int] == '=');
                        }
                    }
                    return None;
                },
                None => {
                    found = Some(i);
                },
            }
        }
        i += 1;
    }
    match found {
        Some(f) => {
            proof {
                let k = choose|k: int|
                    0 <= k < pair@.len() && pair@[k] == '=' && forall|j: int|
                        0 <= j < pair@.len() && j != k ==> pair@[j] != '=';
                assert(pair@[f as int] == '=');
                if k != f {
                    assert(pair@[k] == '=');
                }
            }
            let key = pair.substring_char(0, f).to_string();
            let value = pair.substring_char(f + 1, n).to_string();
            Some((key, value))
        },
        None => None,
    }
}

/// The filter of `key=value` pairs: each pair's key gets its value, a later
/// pair of a key replacing an earlier one.
pub open spec fn filter_of(pairs: Seq<Seq<char>>) -> Map<Seq<char>, Seq<char>>
    decreases pairs.len(),
{
    if pairs.len() == 0 {
        Map::empty()
    } else {
        match key_value(pairs.last()) {
            Some((k, v)) => filter_of(pairs.drop_last()).insert(k, v),
            None => filter_of(pairs.drop_last()),
        }
    }
}

/// A metadata filter from `key=value` pairs, a later pair of a key giving
/// its value; the first text that is no pair is returned as the error.
pub fn metadata_filter(pairs: &Vec<String>) -> (r: Result<TextMap<String>, String>)
    ensures
        match r {
            Ok(m) => (forall|i: int| 0 <= i < pairs@.len() ==> key_value(#[trigger] pairs@[i]@) is Some)
                && m.spec_map().map_values(|v: String| v@) == filter_of(pairs.deep_view()),
            Err(bad) => exists|i: int|
                0 <= i < pairs@.len() && key_value(#[trigger] pairs@[i]@) is None && bad@ == pairs@[i]@
                    && forall|j: int| 0 <= j < i ==> key_value(#[trigger] pairs@[j]@) is Some,
        },
{
    let ghost ps = pairs.deep_view();
    let mut m: TextMap<String> = TextMap::new();
    assert(m.spec_map().map_values(|v: String| v@) =~= filter_of(ps.take(0)));
    let mut i: usize = 0;
    while i < pairs.len()
        invariant
            i <= pairs@.len(),
            ps == pairs.deep_view(),
            forall|j: int| 0 <= j < i ==> key_value(#[trigger] pairs@[j]@) is Some,
            m.spec_map().map_values(|v: String| v@) == filter_of(ps.take(i as int)),
        decreases pairs@.len() - i,
    {
        proof {
            assert(ps.take(i + 1).drop_last() =~= ps.take(i as int));
            assert(ps.take(i + 1).last() == pairs@[i as int]@);
        }
        match split_pair(pairs[i].as_str()) {
            Some((k, v)) => {
                let ghost before = m.spec_map();
                let ghost kv = k@;
                let ghost vv = v@;
                m.insert(k, v);
                assert(m.spec_map().map_values(|v: String| v@) =~= before.map_values(|v: String| v@).insert(kv, vv));
            },
            None => {
                return Err(pairs[i].clone());
            },
        }
        i += 1;
    }
    assert(ps.take(pairs@.len() as int) =~= ps);
    Ok(m)
}

/// The label that metadata offers for a classification (no metadata offers
/// none), as `offered_label` gives it.
pub open spec fn offered_item(meta: Option<Seq<MetadataItemView>>, classification: Seq<char>) -> Option<
    MetadataItemView,
> {
    match meta {
        None => None,
        Some(items) => match last_named(items, classification) {
            Some(i) => if chars_eq_ignore_ascii_case(items[i].value, "unclassified"@) {
                None
            } else {
                Some(items[i])
            },
            None => None,
        },
    }
}

/// Whether a match whose model lies in the folder with this id counts, as
/// `match_counts` decides.
pub open spec fn folder_counts(
    existing: Seq<FolderView>,
    chosen: Seq<Seq<char>>,
    exclusive: bool,
    folder_id: u32,
) -> bool {
    !exclusive || chosen.contains(existing[first_folder_with_id(existing, folder_id)->0].name)
}

/// Whether the search for a label, from match `i` on, only meets matches
/// whose folder is known until it stops.
pub open spec fn label_search_defined(
    ms: Seq<ModelMatchView>,
    metas: Seq<Option<Seq<MetadataItemView>>>,
    existing: Seq<FolderView>,
    chosen: Seq<Seq<char>>,
    exclusive: bool,
    classification: Seq<char>,
    i: int,
) -> bool
    decreases ms.len() - i,
{
    if i < 0 || i >= ms.len() {
        true
    } else if first_folder_with_id(existing, ms[i].model.folder_id) is None {
        false
    } else if folder_counts(existing, chosen, exclusive, ms[i].model.folder_id) && offered_item(
        metas[i],
        classification,
    ) is Some {
        true
    } else {
        label_search_defined(ms, metas, existing, chosen, exclusive, classification, i + 1)
    }
}

/// The label found from match `i` on: that of the first counting match
/// that offers one.
pub open spec fn label_from(
    ms: Seq<ModelMatchView>,
    metas: Seq<Option<Seq<MetadataItemView>>>,
    existing: Seq<FolderView>,
    chosen: Seq<Seq<char>>,
    exclusive: bool,
    classification: Seq<char>,
    i: int,
) -> Option<MetadataItemView>
    decreases ms.len() - i,
{
    if i < 0 || i >= ms.len() {
        None
    } else if folder_counts(existing, chosen, exclusive, ms[i].model.folder_id) && offered_item(
        metas[i],
        classification,
    ) is Some {
        offered_item(metas[i], classification)
    } else {
        label_from(ms, metas, existing, chosen, exclusive, classification, i + 1)
    }
}

/// A matching model offers, for a classification, the last of its items of
/// that name, unless its value reads `unclassified` in some ASCII case; a
/// model without metadata or without such an item offers nothing.
pub proof fn lemma_offered_item_is_last_classified(meta: Option<Seq<MetadataItemView>>, classification: Seq<char>)
    ensures
        offered_item(meta, classification) matches Some(it) ==> meta matches Some(items) && exists|k: int|
            0 <= k < items.len() && (#[trigger] items[k]) == it && it.name == classification && !chars_eq_ignore_ascii_case(
                it.value,
                "unclassified"@,
            ) && forall|j: int| k < j < items.len() ==> (#[trigger] items[j]).name != classification,
        offered_item(meta, classification) is None ==> (meta is None || forall|k: int|
            0 <= k < meta->0.len() && (#[trigger] meta->0[k]).name == classification && (forall|j: int|
                k < j < meta->0.len() ==> (#[trigger] meta->0[j]).name != classification) ==> chars_eq_ignore_ascii_case(
                meta->0[k].value,
                "unclassified"@,
            )),
{
    if meta is Some {
        let items = meta->0;
        lemma_last_named_is_last_with_name(items, classification);
        if last_named(items, classification) is Some {
            let i = last_named(items, classification)->0;
            assert forall|k: int|
                0 <= k < items.len() && (#[trigger] items[k]).name == classification && (forall|j: int|
                    k < j < items.len() ==> (#[trigger] items[j]).name != classification) implies k == i by {
                if k < i {
                    assert(items[i].name == classification);
                } else if k > i {
                }
            }
        }
    }
}

/// Match `j` counts (any match when all folders count, else one whose
/// folder bears a chosen name) and offers a label.
pub open spec fn counting_offer(
    ms: Seq<ModelMatchView>,
    metas: Seq<Option<Seq<MetadataItemView>>>,
    existing: Seq<FolderView>,
    chosen: Seq<Seq<char>>,
    exclusive: bool,
    classification: Seq<char>,
    j: int,
) -> bool {
    &&& (!exclusive || chosen.contains(existing[first_folder_with_id(existing, ms[j].model.folder_id)->0].name))
    &&& offered_item(metas[j], classification) is Some
}

/// The label found from match `i` on is the offer of the first match from
/// `i` on that counts and offers a label; none when no such match exists.
pub proof fn lemma_label_from_first_counting_offer(
    ms: Seq<ModelMatchView>,
    metas: Seq<Option<Seq<MetadataItemView>>>,
    existing: Seq<FolderView>,
    chosen: Seq<Seq<char>>,
    exclusive: bool,
    classification: Seq<char>,
    i: int,
)
    requires
        0 <= i,
    ensures
        label_from(ms, metas, existing, chosen, exclusive, classification, i) matches Some(item) ==> exists|j: int|
            i <= j < ms.len() && #[trigger] counting_offer(ms, metas, existing, chosen, exclusive, classification, j)
                && offered_item(metas[j], classification) == Some(item) && forall|q: int|
                i <= q < j ==> !#[trigger] counting_offer(ms, metas, existing, chosen, exclusive, classification, q),
        label_from(ms, metas, existing, chosen, exclusive, classification, i) is None ==> forall|j: int|
            i <= j < ms.len() ==> !#[trigger] counting_offer(ms, metas, existing, chosen, exclusive, classification, j),
    decreases ms.len() - i,
{
    if i < ms.len() {
        lemma_label_from_first_counting_offer(ms, metas, existing, chosen, exclusive, classification, i + 1);
        let here = counting_offer(ms, metas, existing, chosen, exclusive, classification, i);
        if here {
            assert(label_from(ms, metas, existing, chosen, exclusive, classification, i) == offered_item(metas[i], classification));
        } else {
            assert(label_from(ms, metas, existing, chosen, exclusive, classification, i) == label_from(
                ms,
                metas,
                existing,
                chosen,
                exclusive,
                classification,
                i + 1,
            ));
        }
    }
}

/// What to do with a model's classification after ranking its matches.
pub enum LabelDecision {
    /// Set the classification to the label this matching model offers.
    Assign(ModelMetadataItem),
    /// The model has no match: remove its classification.
    Delete,
    /// No counting match offers a label: leave the model as it is.
    Keep,
}

/// The items of optional metadata, by view.
pub open spec fn meta_items(meta: Option<ModelMetadata>) -> Option<Seq<MetadataItemView>> {
    match meta {
        Some(m) => Some(m.properties.deep_view()),
        None => None,
    }
}

/// Decides a model's classification from its matches, best first, with the
/// metadata of each match's model (`metas[i]` for `matches[i]`): with no
/// match the classification is removed; otherwise the first match that
/// counts and offers a label gives it; else nothing changes.
pub fn label_decision(
    matches: &Vec<ModelMatch>,
    metas: &Vec<Option<ModelMetadata>>,
    existing: &ListOfFolders,
    chosen: &Vec<String>,
    exclusive: bool,
    classification: &str,
) -> (d: LabelDecision)
    requires
        metas@.len() == matches@.len(),
        label_search_defined(
            matches.deep_view(),
            metas@.map_values(|m: Option<ModelMetadata>| meta_items(m)),
            existing.spec_folders(),
            chosen.deep_view(),
            exclusive,
            classification@,
            0,
        ),
    ensures
        matches@.len() == 0 ==> d is Delete,
        matches@.len() > 0 ==> match label_from(
            matches.deep_view(),
            metas@.map_values(|m: Option<ModelMetadata>| meta_items(m)),
            existing.spec_folders(),
            chosen.deep_view(),
            exclusive,
            classification@,
            0,
        ) {
            Some(item) => d matches LabelDecision::Assign(it) && it@ == item,
            None => d is Keep,
        },
{
    if matches.len() == 0 {
        return LabelDecision::Delete;
    }
    let ghost ms = matches.deep_view();
    let ghost mv = metas@.map_values(|m: Option<ModelMetadata>| meta_items(m));
    let ghost fs = existing.spec_folders();
    let ghost cs = chosen.deep_view();
    let mut i: usize = 0;
    while i < matches.len()
        invariant
            i <= matches@.len(),
            metas@.len() == matches@.len(),
            ms == matches.deep_view(),
            mv == metas@.map_values(|m: Option<ModelMetadata>| meta_items(m)),
            fs == existing.spec_folders(),
            cs == chosen.deep_view(),
            label_search_defined(ms, mv, fs, cs, exclusive, classification@, i as int),
            label_from(ms, mv, fs, cs, exclusive, classification@, 0) == label_from(
                ms,
                mv,
                fs,
                cs,
                exclusive,
                classification@,
                i as int,
            ),
        decreases matches@.len() - i,
    {
        let m = &matches[i];
        assert(ms[i as int] == m@);
        assert(mv[i as int] == meta_items(metas@[i as int]));
        let counts = match_counts(existing, chosen, exclusive, m.model.folder_id);
        let offered = match &metas[i] {
            Some(meta) => offered_label(meta, classification),
            None => None,
        };
        assert(counts == folder_counts(fs, cs, exclusive, ms[i as int].model.folder_id));
        assert(match offered {
            Some(it) => offered_item(mv[i as int], classification@) == Some(it@),
            None => offered_item(mv[i as int], classification@) is None,
        });
        if counts {
            match offered {
                Some(item) => {
                    return LabelDecision::Assign(item);
                },
                None => {},
            }
        }
        i += 1;
    }
    LabelDecision::Keep
}

} // verus!
