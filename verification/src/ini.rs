//! Trusted interface to `configparser`'s `Ini` document type.
//!
//! The library keeps whole parsed documents opaque and speaks about them
//! through `ini_doc`, the map of sections to key/value pairs a document
//! holds, and `ini_opts`, which records whether the document was built with
//! this crate's default parser options and, if so, whether it is
//! case-sensitive.  Everything else the catalog and the serializer do with a
//! document is verified against these wrappers.

use vstd::prelude::*;

verus! {

#[verifier::external_type_specification]
#[verifier::external_body]
pub struct ExIni(configparser::ini::Ini);

/// The sections a parsed document holds: section name to key to optional
/// value, exactly as `configparser` stores them.
pub uninterp spec fn ini_doc(ini: configparser::ini::Ini) -> Map<
    Seq<char>,
    Map<Seq<char>, Option<Seq<char>>>,
>;

/// `Some(cs)` when the document was built with `configparser`'s default
/// options except possibly case sensitivity, which is `cs`; `None` for a
/// document with other parser options, about which nothing is promised.
pub uninterp spec fn ini_opts(ini: configparser::ini::Ini) -> Option<bool>;

/// What `Ini::read` parses a given text into under the default options with
/// case sensitivity `cs`: a function of the text and that flag alone.
pub uninterp spec fn ini_parse(text: Seq<char>, cs: bool) -> Result<
    Map<Seq<char>, Map<Seq<char>, Option<Seq<char>>>>,
    Seq<char>,
>;

/// The document with no sections at all.
pub open spec fn empty_doc() -> Map<Seq<char>, Map<Seq<char>, Option<Seq<char>>>> {
    Map::empty()
}

/// The view of an optional owned string.
pub open spec fn option_view(o: Option<String>) -> Option<Seq<char>> {
    match o {
        Some(s) => Some(s@),
        None => None,
    }
}

/// A document after one key is stored: the section gains the key, and is
/// created first if absent.
pub open spec fn doc_set(
    doc: Map<Seq<char>, Map<Seq<char>, Option<Seq<char>>>>,
    section: Seq<char>,
    key: Seq<char>,
    value: Option<Seq<char>>,
) -> Map<Seq<char>, Map<Seq<char>, Option<Seq<char>>>> {
    let sec = if doc.contains_key(section) {
        doc[section]
    } else {
        Map::empty()
    };
    doc.insert(section, sec.insert(key, value))
}

/// The value stored under a section and key, if both exist.
pub open spec fn doc_lookup(
    doc: Map<Seq<char>, Map<Seq<char>, Option<Seq<char>>>>,
    section: Seq<char>,
    key: Seq<char>,
) -> Option<Seq<char>> {
    if doc.contains_key(section) && doc[section].contains_key(key) {
        doc[section][key]
    } else {
        None
    }
}

/// All characters are ASCII and none is an upper-case letter; such a string
/// is its own lower-case folding.
pub open spec fn ascii_no_upper(s: Seq<char>) -> bool {
    forall|i: int| 0 <= i < s.len() ==> (s[i] as u32) < 128 && !('A' <= s[i] <= 'Z')
}

/// Relies on `Ini::new`: an empty, case-insensitive document with the
/// crate's default parser options.
#[verifier::external_body]
pub(crate) fn ini_new() -> (r: configparser::ini::Ini)
    ensures
        ini_doc(r) == empty_doc(),
        ini_opts(r) == Some(false),
{
    configparser::ini::Ini::new()
}

/// Relies on `Ini::new_cs`: an empty, case-sensitive document with the
/// crate's default parser options.
#[verifier::external_body]
pub(crate) fn ini_new_cs() -> (r: configparser::ini::Ini)
    ensures
        ini_doc(r) == empty_doc(),
        ini_opts(r) == Some(true),
{
    configparser::ini::Ini::new_cs()
}

/// Relies on `Ini::read`: parses the text and replaces the stored document;
/// on a parse error it reports the error and leaves the document unchanged.
#[verifier::external_body]
pub(crate) fn ini_read(ini: &mut configparser::ini::Ini, text: String) -> (r: Result<(), String>)
    requires
        ini_opts(*old(ini)) is Some,
    ensures
        ini_opts(*final(ini)) == ini_opts(*old(ini)),
        (r is Ok) == (ini_parse(text@, ini_opts(*old(ini))->0) is Ok),
        r is Ok ==> ini_doc(*final(ini)) == ini_parse(text@, ini_opts(*old(ini))->0)->Ok_0,
        r matches Err(e) ==> ini_doc(*final(ini)) == ini_doc(*old(ini)) && e@ == ini_parse(
            text@,
            ini_opts(*old(ini))->0,
        )->Err_0,
{
    match ini.read(text) {
        Ok(_) => Ok(()),
        Err(e) => Err(e),
    }
}

/// Relies on `Ini::set`: stores the value under the section and key,
/// creating the section if needed; a case-sensitive document uses both
/// verbatim.
#[verifier::external_body]
pub(crate) fn ini_set(ini: &mut configparser::ini::Ini, section: &str, key: &str, value: &str)
    requires
        ini_opts(*old(ini)) == Some(true),
    ensures
        ini_opts(*final(ini)) == ini_opts(*old(ini)),
        ini_doc(*final(ini)) == doc_set(ini_doc(*old(ini)), section@, key@, Some(value@)),
{
    ini.set(section, key, Some(value.to_owned()));
}

/// Relies on `Ini::get`: looks the key up in the section, folding the query
/// to lower case when the document is case-insensitive; a query that is
/// already free of capitals is used verbatim either way.
#[verifier::external_body]
pub(crate) fn ini_get(ini: &configparser::ini::Ini, section: &str, key: &str) -> (r: Option<String>)
    requires
        ini_opts(*ini) is Some,
    ensures
        (ini_opts(*ini) == Some(true) || (ascii_no_upper(section@) && ascii_no_upper(key@)))
            ==> option_view(r) == doc_lookup(ini_doc(*ini), section@, key@),
{
    ini.get(section, key)
}

/// One section of a parsed document, handed out as plain values.
pub struct IniSection {
    pub name: String,
    pub entries: Vec<(String, Option<String>)>,
}

/// The map a list of key/value pairs stands for.
pub open spec fn entries_model(es: Seq<(String, Option<String>)>) -> Map<
    Seq<char>,
    Option<Seq<char>>,
>
    decreases es.len(),
{
    if es.len() == 0 {
        Map::empty()
    } else {
        entries_model(es.drop_last()).insert(es.last().0@, option_view(es.last().1))
    }
}

/// The first entry with the given key, if any: `Some(stored)` where
/// `stored` is the (possibly absent) value.
pub open spec fn entries_find(es: Seq<(String, Option<String>)>, key: Seq<char>) -> Option<
    Option<Seq<char>>,
>
    decreases es.len(),
{
    if es.len() == 0 {
        None
    } else if es[0].0@ == key {
        Some(option_view(es[0].1))
    } else {
        entries_find(es.drop_first(), key)
    }
}

/// The value stored under a key, when the key is present and carries one.
pub open spec fn entries_value(es: Seq<(String, Option<String>)>, key: Seq<char>) -> Option<
    Seq<char>,
> {
    match entries_find(es, key) {
        Some(Some(v)) => Some(v),
        _ => None,
    }
}

/// Look a key up in a section's entry list and hand out its value, if it
/// is present and carries one.
pub fn entries_get(entries: &Vec<(String, Option<String>)>, key: &str) -> (r: Option<String>)
    ensures
        option_view(r) == entries_value(entries@, key@),
{
    let mut i: usize = 0;
    let len = entries.len();
    proof {
        assert(entries@.skip(0) =~= entries@);
    }
    while i < len
        invariant
            i <= len,
            len == entries@.len(),
            entries_find(entries@, key@) == entries_find(entries@.skip(i as int), key@),
        decreases len - i,
    {
        proof {
            assert(entries@.skip(i as int)[0] == entries@[i as int]);
            assert(entries@.skip(i as int).drop_first() =~= entries@.skip(i + 1));
        }
        if crate::strutil::str_eq(entries[i].0.as_str(), key) {
            return match &entries[i].1 {
                Some(v) => Some(v.clone()),
                None => None,
            };
        }
        i = i + 1;
    }
    proof {
        assert(entries@.skip(len as int) =~= Seq::<(String, Option<String>)>::empty());
    }
    None
}

/// The keys of a list of key/value pairs, in order.
pub open spec fn entry_keys(es: Seq<(String, Option<String>)>) -> Seq<Seq<char>> {
    es.map_values(|e: (String, Option<String>)| e.0@)
}

/// The section names of a section list, in order.
pub open spec fn section_names(ss: Seq<IniSection>) -> Seq<Seq<char>> {
    ss.map_values(|s: IniSection| s.name@)
}

/// A section list as the trusted reader hands it out: each section named
/// once, each key standing once within its section.
pub open spec fn well_read(ss: Seq<IniSection>) -> bool {
    &&& section_names(ss).no_duplicates()
    &&& forall|i: int|
        0 <= i < ss.len() ==> (#[trigger] entry_keys(ss[i].entries@)).no_duplicates()
}

/// The document a section list stands for.
pub open spec fn sections_model(ss: Seq<IniSection>) -> Map<
    Seq<char>,
    Map<Seq<char>, Option<Seq<char>>>,
>
    decreases ss.len(),
{
    if ss.len() == 0 {
        Map::empty()
    } else {
        sections_model(ss.drop_last()).insert(
            ss.last().name@,
            entries_model(ss.last().entries@),
        )
    }
}

/// Relies on `Ini::get_map`: a clone of the stored document, one list item
/// per section and one pair per key; the backing map gives each section and
/// each key exactly once, in no promised order.
#[verifier::external_body]
pub(crate) fn ini_sections(ini: &configparser::ini::Ini) -> (r: Vec<IniSection>)
    ensures
        sections_model(r@) == ini_doc(*ini),
        well_read(r@),
{
    let mut r = Vec::new();
    if let Some(map) = ini.get_map() {
        for (name, sec) in map {
            let mut entries = Vec::new();
            for (k, v) in sec {
                entries.push((k, v));
            }
            r.push(IniSection { name, entries });
        }
    }
    r
}

} // verus!
