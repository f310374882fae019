//! The unit catalog: nation reference data and unit records loaded from the
//! game's per-unit configuration files, indexed for lookup by id and
//! filtered search.

use vstd::prelude::*;
use vstd::string::StringExecFns;

use crate::ini::doc_lookup;
use crate::ini::entries_value;
use crate::ini::entries_get;
use crate::ini::ini_get;
use crate::ini::ini_new;
use crate::ini::ini_parse;
use crate::ini::ini_read;
use crate::ini::ini_sections;
use crate::ini::ascii_no_upper;
use crate::ini::sections_model;
use crate::ini::IniSection;
use crate::strutil::char_index;
use crate::strutil::char_last_index;
use crate::strutil::find_char;
use crate::strutil::first_key_index;
use crate::strutil::lemma_char_index;
use crate::strutil::lemma_char_last_index;
use crate::strutil::lemma_first_key_index;
use crate::strutil::lemma_split_char_len;
use crate::strutil::lower_of;
use crate::strutil::lowercase;
use crate::strutil::rfind_char;
use crate::strutil::split_by_char;
use crate::strutil::split_char;
use crate::strutil::str_ends_with;
use crate::strutil::str_eq;
use crate::strutil::str_lt;
use crate::strutil::string_views;
use vstd::string::StrSliceExecFns;

verus! {

/// The closed set of unit categories.
#[derive(Copy, Clone, Debug, PartialEq, Eq, Structural)]
pub enum UnitType {
    Ship,
    Submarine,
    Helicopter,
    FixedWing,
}

/// The singular capitalized label of a kind, used in per-unit section names.
pub open spec fn singular_spec(t: UnitType) -> Seq<char> {
    match t {
        UnitType::Ship => "Vessel"@,
        UnitType::Submarine => "Submarine"@,
        UnitType::FixedWing => "Aircraft"@,
        UnitType::Helicopter => "Helicopter"@,
    }
}

/// The plural capitalized label of a kind, used in count-key names;
/// `FixedWing`'s plural is irregular.
pub open spec fn plural_spec(t: UnitType) -> Seq<char> {
    if t == UnitType::FixedWing {
        "Aircraft"@
    } else {
        singular_spec(t) + "s"@
    }
}

/// The kind a `UnitType` field value denotes, compared case-insensitively.
pub open spec fn kind_of_type_field(s: Seq<char>) -> Option<UnitType> {
    let l = lower_of(s);
    if l == "vessel"@ {
        Some(UnitType::Ship)
    } else if l == "submarine"@ {
        Some(UnitType::Submarine)
    } else if l == "helicopter"@ {
        Some(UnitType::Helicopter)
    } else if l == "aircraft"@ {
        Some(UnitType::FixedWing)
    } else {
        None
    }
}

/// A `UnitType` field value that no kind recognizes.
#[derive(Debug)]
pub struct UnknownUnitTypeError(pub String);

impl UnknownUnitTypeError {
    /// The error rendered as text.
    pub fn message(&self) -> (r: String)
        ensures
            r@ == "unknown unit type "@ + self.0@,
    {
        let mut s = "unknown unit type ".to_owned();
        s.append(self.0.as_str());
        s
    }
}

impl UnitType {
    /// Every kind, once, in a fixed order.
    pub fn all() -> (r: [UnitType; 4])
        ensures
            r@ =~= seq![
                UnitType::Ship,
                UnitType::Submarine,
                UnitType::Helicopter,
                UnitType::FixedWing,
            ],
    {
        [UnitType::Ship, UnitType::Submarine, UnitType::Helicopter, UnitType::FixedWing]
    }

    /// The singular capitalized label of this kind.
    pub fn capitalised_singular(&self) -> (r: String)
        ensures
            r@ == singular_spec(*self),
    {
        match self {
            UnitType::Ship => "Vessel".to_owned(),
            UnitType::Submarine => "Submarine".to_owned(),
            UnitType::FixedWing => "Aircraft".to_owned(),
            UnitType::Helicopter => "Helicopter".to_owned(),
        }
    }

    /// The plural capitalized label of this kind.
    pub fn calitalised_plural(&self) -> (r: String)
        ensures
            r@ == plural_spec(*self),
    {
        match self {
            UnitType::FixedWing => "Aircraft".to_owned(),
            _ => self.capitalised_singular().concat("s"),
        }
    }

    /// The kind a `UnitType` field value denotes, if recognized; compared
    /// after folding the value to lower case.
    pub fn try_from(utype: &str) -> (r: Result<UnitType, UnknownUnitTypeError>)
        ensures
            match r {
                Ok(t) => kind_of_type_field(utype@) == Some(t),
                Err(e) => kind_of_type_field(utype@) is None && e.0@ == utype@,
            },
    {
        let lower = lowercase(utype);
        if str_eq(lower.as_str(), "vessel") {
            Ok(UnitType::Ship)
        } else if str_eq(lower.as_str(), "submarine") {
            Ok(UnitType::Submarine)
        } else if str_eq(lower.as_str(), "helicopter") {
            Ok(UnitType::Helicopter)
        } else if str_eq(lower.as_str(), "aircraft") {
            Ok(UnitType::FixedWing)
        } else {
            Err(UnknownUnitTypeError(utype.to_owned()))
        }
    }
}

/// A faction: a nation id (the prefix of its units' ids) and a readable name.
#[derive(Clone, Debug)]
pub struct Nation {
    pub id: String,
    pub name: String,
}

/// The mathematical value of a `Nation`.
pub ghost struct NationV {
    pub id: Seq<char>,
    pub name: Seq<char>,
}

impl View for Nation {
    type V = NationV;

    open spec fn view(&self) -> NationV {
        NationV { id: self.id@, name: self.name@ }
    }
}

impl Nation {
    /// An equal nation, field for field.
    pub fn duplicate(&self) -> (r: Nation)
        ensures
            r == *self,
    {
        Nation { id: self.id.clone(), name: self.name.clone() }
    }
}

/// One playable unit of the catalog, immutable once loaded.
#[derive(Clone, Debug)]
pub struct Unit {
    pub id: String,
    pub name: String,
    pub nation: Nation,
    pub utype: UnitType,
}

/// The mathematical value of a `Unit`.
pub ghost struct UnitV {
    pub id: Seq<char>,
    pub name: Seq<char>,
    pub nation: NationV,
    pub utype: UnitType,
}

impl View for Unit {
    type V = UnitV;

    open spec fn view(&self) -> UnitV {
        UnitV { id: self.id@, name: self.name@, nation: self.nation@, utype: self.utype }
    }
}

impl Unit {
    /// An equal unit, field for field.
    pub fn duplicate(&self) -> (r: Unit)
        ensures
            r == *self,
    {
        Unit {
            id: self.id.clone(),
            name: self.name.clone(),
            nation: self.nation.duplicate(),
            utype: self.utype,
        }
    }
}

/// The ids of a list of nations, in order.
pub open spec fn nation_ids(ns: Seq<Nation>) -> Seq<Seq<char>> {
    ns.map_values(|n: Nation| n.id@)
}

/// The ids of a list of units, in order.
pub open spec fn unit_ids(us: Seq<Unit>) -> Seq<Seq<char>> {
    us.map_values(|u: Unit| u.id@)
}

/// The first unit with the given id, if any.
pub open spec fn find_unit(us: Seq<Unit>, id: Seq<char>) -> Option<Unit>
    decreases us.len(),
{
    if us.len() == 0 {
        None
    } else if us[0].id@ == id {
        Some(us[0])
    } else {
        find_unit(us.drop_first(), id)
    }
}

/// A found unit is a catalog entry carrying the id it was found under.
pub proof fn lemma_find_unit_contained(us: Seq<Unit>, id: Seq<char>)
    ensures
        match find_unit(us, id) {
            Some(u) => us.contains(u) && u.id@ == id,
            None => true,
        },
    decreases us.len(),
{
    if us.len() > 0 && us[0].id@ != id {
        lemma_find_unit_contained(us.drop_first(), id);
        match find_unit(us.drop_first(), id) {
            Some(u) => {
                let i = choose|i: int|
                    0 <= i < us.drop_first().len() && us.drop_first()[i] == u;
                assert(us[i + 1] == u);
            },
            None => {},
        }
    }
}

/// Whether a unit passes a search filter: an absent filter matches all.
pub open spec fn unit_matches(u: Unit, nation: Option<Seq<char>>, utype: Option<UnitType>) -> bool {
    (match nation {
        Some(n) => u.nation.id@ == n,
        None => true,
    }) && (match utype {
        Some(t) => u.utype == t,
        None => true,
    })
}

/// The view of an optional borrowed string filter.
pub open spec fn opt_str_view(o: Option<&str>) -> Option<Seq<char>> {
    match o {
        Some(s) => Some(s@),
        None => None,
    }
}

/// Errors on which catalog construction fails as a whole: anything that
/// keeps the two reference documents from being read.
#[derive(Debug)]
pub enum UnitDbError {
    ParseError { file: String, reason: String },
    IOError(String),
}

/// The in-memory, read-only index of all known units and nations.
#[derive(Debug)]
pub struct UnitDb {
    pub nations: Vec<Nation>,
    pub units: Vec<Unit>,
}

impl UnitDb {
    /// The catalog's internal invariant: ids index at most one nation and at
    /// most one unit.
    pub open spec fn wf(self) -> bool {
        nation_ids(self.nations@).no_duplicates() && unit_ids(self.units@).no_duplicates()
    }

    /// All loaded nations, sorted by id: a permutation of the stored
    /// nation table in a stable order.
    pub fn nations(&self) -> (r: Vec<Nation>)
        requires
            self.wf(),
        ensures
            r@.len() == self.nations@.len(),
            r@.to_set() == self.nations@.to_set(),
            forall|i: int, j: int|
                #![trigger r@[i], r@[j]]
                0 <= i < j < r@.len() ==> crate::strutil::seq_char_lt(r@[i].id@, r@[j].id@),
    {
        let mut r: Vec<Nation> = Vec::new();
        let mut i: usize = 0;
        let len = self.nations.len();
        proof {
            assert(self.nations@.take(0) =~= Seq::<Nation>::empty());
            assert(r@.to_set() =~= self.nations@.take(0).to_set());
        }
        while i < len
            invariant
                i <= len,
                len == self.nations@.len(),
                self.wf(),
                r@.len() == i,
                r@.to_set() == self.nations@.take(i as int).to_set(),
                forall|p: int, q: int|
                    #![trigger r@[p], r@[q]]
                    0 <= p < q < r@.len() ==> crate::strutil::seq_char_lt(r@[p].id@, r@[q].id@),
            decreases len - i,
        {
            let n = self.nations[i].duplicate();
            proof {
                assert(nation_ids(self.nations@.take(i as int)) =~= nation_ids(
                    self.nations@,
                ).take(i as int));
                assert forall|k: int| 0 <= k < r@.len() implies #[trigger] r@[k].id@ != n.id@ by {
                    assert(r@.to_set().contains(r@[k]));
                    assert(self.nations@.take(i as int).to_set().contains(r@[k]));
                    let m = choose|m: int|
                        0 <= m < self.nations@.take(i as int).len() && self.nations@.take(
                            i as int,
                        )[m] == r@[k];
                    assert(nation_ids(self.nations@)[m] == r@[k].id@);
                    assert(nation_ids(self.nations@)[i as int] == n.id@);
                    assert(nation_ids(self.nations@)[m] != nation_ids(self.nations@)[i as int]);
                }
            }
            let mut j: usize = 0;
            let rlen = r.len();
            while j < rlen && str_lt(r[j].id.as_str(), n.id.as_str())
                invariant
                    j <= rlen,
                    rlen == r@.len(),
                    forall|k: int|
                        0 <= k < j ==> crate::strutil::seq_char_lt(
                            (#[trigger] r@[k]).id@,
                            n.id@,
                        ),
                decreases rlen - j,
            {
                j = j + 1;
            }
            let ghost before = r@;
            let ghost pos = j as int;
            proof {
                if pos < before.len() {
                    assert(!crate::strutil::seq_char_lt(before[pos].id@, n.id@));
                    assert(before[pos].id@ != n.id@);
                    if !crate::strutil::seq_char_lt(n.id@, before[pos].id@) {
                        crate::strutil::lemma_seq_char_lt_connex(before[pos].id@, n.id@);
                    }
                    assert(crate::strutil::seq_char_lt(n.id@, before[pos].id@));
                }
            }
            r.insert(j, n);
            proof {
                let after = r@;
                assert forall|p: int, q: int|
                    #![trigger after[p], after[q]]
                    0 <= p < q < after.len() implies crate::strutil::seq_char_lt(
                    after[p].id@,
                    after[q].id@,
                ) by {
                    if p < pos && q < pos {
                        assert(after[p] == before[p] && after[q] == before[q]);
                    } else if p < pos && q == pos {
                        assert(after[p] == before[p]);
                    } else if p < pos && q > pos {
                        assert(after[p] == before[p] && after[q] == before[q - 1]);
                        if q - 1 >= pos {
                            assert(crate::strutil::seq_char_lt(n.id@, before[pos].id@));
                            if q - 1 > pos {
                                assert(crate::strutil::seq_char_lt(
                                    before[pos].id@,
                                    before[q - 1].id@,
                                ));
                            }
                        }
                        if q - 1 == pos {
                            crate::strutil::lemma_seq_char_lt_trans(
                                before[p].id@,
                                n.id@,
                                before[pos].id@,
                            );
                        } else {
                            crate::strutil::lemma_seq_char_lt_trans(
                                before[p].id@,
                                before[pos].id@,
                                before[q - 1].id@,
                            );
                        }
                    } else if p == pos && q > pos {
                        assert(after[q] == before[q - 1]);
                        assert(crate::strutil::seq_char_lt(n.id@, before[pos].id@));
                        if q - 1 > pos {
                            assert(crate::strutil::seq_char_lt(
                                before[pos].id@,
                                before[q - 1].id@,
                            ));
                            crate::strutil::lemma_seq_char_lt_trans(
                                n.id@,
                                before[pos].id@,
                                before[q - 1].id@,
                            );
                        }
                    } else {
                        assert(after[p] == before[p - 1] && after[q] == before[q - 1]);
                    }
                }
                assert(self.nations@.take(i + 1).drop_last() =~= self.nations@.take(i as int));
                assert(self.nations@.take(i + 1).last() == self.nations@[i as int]);
                assert(after.to_set() =~= self.nations@.take(i + 1).to_set()) by {
                    assert forall|v: Nation| after.to_set().contains(v) implies self.nations@.take(
                        i + 1,
                    ).to_set().contains(v) by {
                        let k = choose|k: int| 0 <= k < after.len() && after[k] == v;
                        if k == pos {
                            assert(self.nations@.take(i + 1)[i as int] == v);
                        } else {
                            let bk = if k < pos {
                                k
                            } else {
                                k - 1
                            };
                            assert(before[bk] == v);
                            assert(before.to_set().contains(v));
                            let m = choose|m: int|
                                0 <= m < self.nations@.take(i as int).len() && self.nations@.take(
                                    i as int,
                                )[m] == v;
                            assert(self.nations@.take(i + 1)[m] == v);
                        }
                    }
                    assert forall|v: Nation|
                        self.nations@.take(i + 1).to_set().contains(v) implies after
                        .to_set().contains(v) by {
                        let tk = self.nations@.take(i + 1);
                        let m = choose|m: int| 0 <= m < tk.len() && tk[m] == v;
                        if m == i {
                            assert(after[pos] == v);
                        } else {
                            assert(self.nations@.take(i as int)[m] == v);
                            assert(before.to_set().contains(v));
                            let k = choose|k: int| 0 <= k < before.len() && before[k] == v;
                            if k < pos {
                                assert(after[k] == v);
                            } else {
                                assert(after[k + 1] == v);
                            }
                        }
                    }
                }
            }
            i = i + 1;
        }
        proof {
            assert(self.nations@.take(len as int) =~= self.nations@);
        }
        r
    }

    /// Every catalog entry, in the catalog's stable internal order.
    pub fn all(&self) -> (r: &Vec<Unit>)
        ensures
            r@ == self.units@,
    {
        &self.units
    }

    /// Direct lookup of the unit with the given id.
    pub fn by_id(&self, id: &str) -> (r: Option<&Unit>)
        ensures
            match r {
                Some(u) => find_unit(self.units@, id@) == Some(*u),
                None => find_unit(self.units@, id@) is None,
            },
    {
        let mut i: usize = 0;
        let len = self.units.len();
        proof {
            assert(self.units@.skip(0) =~= self.units@);
        }
        while i < len
            invariant
                i <= len,
                len == self.units@.len(),
                find_unit(self.units@, id@) == find_unit(self.units@.skip(i as int), id@),
            decreases len - i,
        {
            if str_eq(self.units[i].id.as_str(), id) {
                proof {
                    assert(self.units@.skip(i as int)[0] == self.units@[i as int]);
                }
                return Some(&self.units[i]);
            }
            proof {
                assert(self.units@.skip(i as int).drop_first() =~= self.units@.skip(i + 1));
                assert(self.units@.skip(i as int)[0] == self.units@[i as int]);
            }
            i = i + 1;
        }
        proof {
            assert(self.units@.skip(len as int) =~= Seq::<Unit>::empty());
        }
        None
    }

    /// All units that pass both filters, in the catalog's stable internal
    /// order; an absent filter matches every unit.
    pub fn search(&self, nation: Option<&str>, utype: Option<UnitType>) -> (r: Vec<Unit>)
        ensures
            r@ == self.units@.filter(
                |u: Unit| unit_matches(u, opt_str_view(nation), utype),
            ),
    {
        let ghost pred = |u: Unit| unit_matches(u, opt_str_view(nation), utype);
        let mut r: Vec<Unit> = Vec::new();
        let mut i: usize = 0;
        let len = self.units.len();
        while i < len
            invariant
                i <= len,
                len == self.units@.len(),
                r@ == self.units@.take(i as int).filter(pred),
                pred == (|u: Unit| unit_matches(u, opt_str_view(nation), utype)),
            decreases len - i,
        {
            let u = &self.units[i];
            let nation_ok = match nation {
                Some(n) => str_eq(u.nation.id.as_str(), n),
                None => true,
            };
            let utype_ok = match utype {
                Some(t) => u.utype == t,
                None => true,
            };
            if nation_ok && utype_ok {
                r.push(u.duplicate());
            }
            proof {
                let s = self.units@;
                assert(s.take(i + 1).drop_last() =~= s.take(i as int));
                assert(s.take(i + 1).last() == s[i as int]);
                reveal_with_fuel(Seq::filter, 2);
                assert(s.take(i + 1).filter(pred) == if pred(s[i as int]) {
                    s.take(i as int).filter(pred).push(s[i as int])
                } else {
                    s.take(i as int).filter(pred)
                });
            }
            i = i + 1;
        }
        proof {
            assert(self.units@.take(len as int) =~= self.units@);
        }
        r
    }
}

/// One candidate file of the vessels directory: its file name and, when it
/// could be read, its text.
pub struct VesselFile {
    pub file_name: String,
    pub text: Option<String>,
}

/// The mathematical value of a `VesselFile`.
pub ghost struct VesselFileV {
    pub file_name: Seq<char>,
    pub text: Option<Seq<char>>,
}

impl View for VesselFile {
    type V = VesselFileV;

    open spec fn view(&self) -> VesselFileV {
        VesselFileV {
            file_name: self.file_name@,
            text: match self.text {
                Some(t) => Some(t@),
                None => None,
            },
        }
    }
}

/// One reference document handed to catalog construction: where it came
/// from, for error reporting, and its text.
pub struct SourceDoc {
    pub path: String,
    pub text: String,
}

/// The views of a list of vessel files, in order.
pub open spec fn vessel_file_views(fs: Seq<VesselFile>) -> Seq<VesselFileV> {
    fs.map_values(|f: VesselFile| f@)
}

/// The views of a list of nations, in order.
pub open spec fn nation_views(ns: Seq<Nation>) -> Seq<NationV> {
    ns.map_values(|n: Nation| n@)
}

/// The views of a list of units, in order.
pub open spec fn unit_views(us: Seq<Unit>) -> Seq<UnitV> {
    us.map_values(|u: Unit| u@)
}

/// The views of a name table's id/name pairs, in order.
pub open spec fn name_pairs(ns: Seq<(String, String)>) -> Seq<(Seq<char>, Seq<char>)> {
    ns.map_values(|p: (String, String)| (p.0@, p.1@))
}

/// The first nation value with the given id, if any.
pub open spec fn find_nationv(ns: Seq<NationV>, id: Seq<char>) -> Option<NationV> {
    match first_key_index(ns, |n: NationV| n.id, id) {
        Some(i) => Some(ns[i]),
        None => None,
    }
}

/// The name registered for an id, if any.
pub open spec fn find_namev(ns: Seq<(Seq<char>, Seq<char>)>, id: Seq<char>) -> Option<Seq<char>> {
    match first_key_index(ns, |p: (Seq<char>, Seq<char>)| p.0, id) {
        Some(i) => Some(ns[i].1),
        None => None,
    }
}

/// A nation list after one nation is stored: the entry with its id is
/// replaced in place, or a new entry is appended.
pub open spec fn upsert_nationv(ns: Seq<NationV>, nv: NationV) -> Seq<NationV> {
    match first_key_index(ns, |n: NationV| n.id, nv.id) {
        Some(i) => ns.update(i, nv),
        None => ns.push(nv),
    }
}

/// A name table after one pair is stored, the id deciding replacement.
pub open spec fn upsert_namev(
    ns: Seq<(Seq<char>, Seq<char>)>,
    p: (Seq<char>, Seq<char>),
) -> Seq<(Seq<char>, Seq<char>)> {
    match first_key_index(ns, |q: (Seq<char>, Seq<char>)| q.0, p.0) {
        Some(i) => ns.update(i, p),
        None => ns.push(p),
    }
}

/// A unit list after one unit is stored, the id deciding replacement.
pub open spec fn upsert_unitv(us: Seq<UnitV>, uv: UnitV) -> Seq<UnitV> {
    match first_key_index(us, |u: UnitV| u.id, uv.id) {
        Some(i) => us.update(i, uv),
        None => us.push(uv),
    }
}

/// The nation one section of the nation-reference document contributes: it
/// needs both a prefix and a name.
pub open spec fn section_nation(s: IniSection) -> Option<NationV> {
    let id = entries_value(s.entries@, "nationprefix"@);
    let name = entries_value(s.entries@, "nationname"@);
    if id is Some && name is Some {
        Some(NationV { id: id->0, name: name->0 })
    } else {
        None
    }
}

/// The nations a nation-reference document yields, section by section.
pub open spec fn nation_fold(ss: Seq<IniSection>) -> Seq<NationV>
    decreases ss.len(),
{
    if ss.len() == 0 {
        Seq::empty()
    } else {
        let prev = nation_fold(ss.drop_last());
        match section_nation(ss.last()) {
            Some(nv) => upsert_nationv(prev, nv),
            None => prev,
        }
    }
}

/// The id/name pair one section of the name table contributes: the section
/// name is the unit id, the name is the first comma-separated part of the
/// `default` field.
pub open spec fn section_name_entry(s: IniSection) -> Option<(Seq<char>, Seq<char>)> {
    match entries_value(s.entries@, "default"@) {
        Some(v) => Some((s.name@, split_char(v, ',')[0])),
        None => None,
    }
}

/// The name table a vessel-name document yields, section by section.
pub open spec fn names_fold(ss: Seq<IniSection>) -> Seq<(Seq<char>, Seq<char>)>
    decreases ss.len(),
{
    if ss.len() == 0 {
        Seq::empty()
    } else {
        let prev = names_fold(ss.drop_last());
        match section_name_entry(ss.last()) {
            Some(p) => upsert_namev(prev, p),
            None => prev,
        }
    }
}

/// The stem of a file name: what stands before the last dot, unless that
/// dot leads the name.
pub open spec fn stem_spec(s: Seq<char>) -> Seq<char> {
    match char_last_index(s, '.') {
        Some(i) => if i > 0 {
            s.take(i)
        } else {
            s
        },
        None => s,
    }
}

/// Whether a stem names a variant-group file, which the catalog skips.
pub open spec fn is_variants_stem(stem: Seq<char>) -> bool {
    stem.len() >= "_variants"@.len() && stem.skip(stem.len() - "_variants"@.len()) == "_variants"@
}

/// The unit one vessel file contributes: its stem is the id, the nation
/// comes from the prefix before the first underscore, the display name from
/// the name table, and the kind from the file's `UnitType` field; a file
/// that fails any step contributes nothing.
pub open spec fn file_unit(
    nations: Seq<NationV>,
    names: Seq<(Seq<char>, Seq<char>)>,
    f: VesselFileV,
) -> Option<UnitV> {
    let stem = stem_spec(f.file_name);
    if f.file_name.len() == 0 || is_variants_stem(stem) {
        None
    } else {
        match char_index(stem, '_') {
            None => None,
            Some(ui) => match find_namev(names, stem) {
                None => None,
                Some(name) => match find_nationv(nations, stem.take(ui)) {
                    None => None,
                    Some(nation) => match f.text {
                        None => None,
                        Some(text) => match ini_parse(text, false) {
                            Err(_) => None,
                            Ok(doc) => match doc_lookup(doc, "general"@, "unittype"@) {
                                None => None,
                                Some(tval) => match kind_of_type_field(tval) {
                                    None => None,
                                    Some(k) => Some(
                                        UnitV { id: stem, name, nation, utype: k },
                                    ),
                                },
                            },
                        },
                    },
                },
            },
        }
    }
}

/// The units a list of vessel files yields, file by file, a later file
/// replacing an earlier one with the same id.
pub open spec fn vessels_fold(
    nations: Seq<NationV>,
    names: Seq<(Seq<char>, Seq<char>)>,
    fs: Seq<VesselFileV>,
) -> Seq<UnitV>
    decreases fs.len(),
{
    if fs.len() == 0 {
        Seq::empty()
    } else {
        let prev = vessels_fold(nations, names, fs.drop_last());
        match file_unit(nations, names, fs.last()) {
            Some(uv) => upsert_unitv(prev, uv),
            None => prev,
        }
    }
}

/// Search filter correctness, matching half: a unit is in the filtered
/// pool exactly when the catalog holds it and it passes both filters; with
/// both filters present that is exactly the subset with the given nation
/// id and kind.
pub proof fn lemma_search_members(
    us: Seq<Unit>,
    nation: Option<Seq<char>>,
    utype: Option<UnitType>,
    u: Unit,
)
    ensures
        us.filter(|x: Unit| unit_matches(x, nation, utype)).contains(u) <==> (us.contains(u)
            && unit_matches(u, nation, utype)),
{
    let pred = |x: Unit| unit_matches(x, nation, utype);
    if us.filter(pred).contains(u) {
        crate::strutil::lemma_filter_subset(us, pred, u);
    }
    if us.contains(u) && unit_matches(u, nation, utype) {
        let i = choose|i: int| 0 <= i < us.len() && us[i] == u;
        us.lemma_filter_contains(pred, i);
    }
}

/// Search filter correctness, match-all half: a search without filters
/// keeps the whole catalog, order included.
pub proof fn lemma_search_no_filter(us: Seq<Unit>)
    ensures
        us.filter(|x: Unit| unit_matches(x, None, None)) == us,
    decreases us.len(),
{
    reveal(Seq::filter);
    let pred = |x: Unit| unit_matches(x, None, None);
    if us.len() > 0 {
        lemma_search_no_filter(us.drop_last());
        assert(us.filter(pred) =~= us);
    } else {
        assert(us.filter(pred) =~= us);
    }
}

/// Whether a candidate file yields a unit carrying the given id.
pub open spec fn yields_id(
    nations: Seq<NationV>,
    names: Seq<(Seq<char>, Seq<char>)>,
    f: VesselFileV,
    id: Seq<char>,
) -> bool {
    match file_unit(nations, names, f) {
        Some(uv) => uv.id == id,
        None => false,
    }
}

/// Catalog completeness and the skip rule: the folded unit list holds an
/// entry with an id exactly when some candidate file passes every check (a
/// registered name, a known nation prefix, a parseable record, a
/// recognized kind) and yields that id; and every entry is the yield of
/// some file.
pub proof fn lemma_vessels_fold_complete(
    nations: Seq<NationV>,
    names: Seq<(Seq<char>, Seq<char>)>,
    fs: Seq<VesselFileV>,
    id: Seq<char>,
)
    ensures
        (exists|i: int| 0 <= i < fs.len() && yields_id(nations, names, #[trigger] fs[i], id))
            <==> (exists|k: int|
            0 <= k < vessels_fold(nations, names, fs).len() && (#[trigger] vessels_fold(
                nations,
                names,
                fs,
            )[k]).id == id),
        forall|k: int|
            0 <= k < vessels_fold(nations, names, fs).len() ==> exists|i: int|
                0 <= i < fs.len() && file_unit(nations, names, fs[i]) == Some(
                    #[trigger] vessels_fold(nations, names, fs)[k],
                ),
    decreases fs.len(),
{
    if fs.len() > 0 {
        let prev = vessels_fold(nations, names, fs.drop_last());
        let cur = vessels_fold(nations, names, fs);
        lemma_vessels_fold_complete(nations, names, fs.drop_last(), id);
        assert(forall|i: int| 0 <= i < fs.len() - 1 ==> #[trigger] fs[i] == fs.drop_last()[i]);
        assert(fs.last() == fs[fs.len() - 1]);
        match file_unit(nations, names, fs.last()) {
            None => {
                assert(cur == prev);
                assert forall|i: int|
                    0 <= i < fs.len() && yields_id(nations, names, #[trigger] fs[i], id) implies (
                exists|k: int| 0 <= k < cur.len() && (#[trigger] cur[k]).id == id) by {
                    assert(i < fs.len() - 1);
                    assert(fs.drop_last()[i] == fs[i]);
                }
                assert forall|k: int|
                    0 <= k < cur.len() implies exists|i: int|
                        0 <= i < fs.len() && file_unit(nations, names, fs[i]) == Some(
                            #[trigger] cur[k],
                        ) by {
                    let i = choose|i: int|
                        0 <= i < fs.drop_last().len() && file_unit(
                            nations,
                            names,
                            fs.drop_last()[i],
                        ) == Some(prev[k]);
                    assert(fs[i] == fs.drop_last()[i]);
                }
            },
            Some(uv) => {
                lemma_first_key_index(prev, |u: UnitV| u.id, uv.id);
                match first_key_index(prev, |u: UnitV| u.id, uv.id) {
                    Some(p) => {
                        assert(cur == prev.update(p, uv));
                        assert(cur.len() == prev.len());
                        assert(prev[p].id == uv.id);
                        assert(forall|k: int|
                            0 <= k < cur.len() && k != p ==> #[trigger] cur[k] == prev[k]);
                        assert(cur[p] == uv);
                        if id == uv.id {
                            assert(yields_id(nations, names, fs[fs.len() - 1], id));
                            assert(cur[p].id == id);
                        } else {
                            assert forall|i: int|
                                0 <= i < fs.len() && yields_id(
                                    nations,
                                    names,
                                    #[trigger] fs[i],
                                    id,
                                ) implies (exists|k: int|
                                0 <= k < cur.len() && (#[trigger] cur[k]).id == id) by {
                                assert(i < fs.len() - 1);
                                assert(fs.drop_last()[i] == fs[i]);
                                let k = choose|k: int|
                                    0 <= k < prev.len() && (#[trigger] prev[k]).id == id;
                                assert(k != p);
                                assert(cur[k].id == id);
                            }
                            if exists|k: int| 0 <= k < cur.len() && (#[trigger] cur[k]).id
                                == id {
                                let k = choose|k: int|
                                    0 <= k < cur.len() && (#[trigger] cur[k]).id == id;
                                assert(k != p);
                                assert(prev[k].id == id);
                                let i = choose|i: int|
                                    0 <= i < fs.drop_last().len() && yields_id(
                                        nations,
                                        names,
                                        #[trigger] fs.drop_last()[i],
                                        id,
                                    );
                                assert(fs[i] == fs.drop_last()[i]);
                                assert(yields_id(nations, names, fs[i], id));
                            }
                        }
                        assert forall|k: int|
                            0 <= k < cur.len() implies exists|i: int|
                                0 <= i < fs.len() && file_unit(nations, names, fs[i]) == Some(
                                    #[trigger] cur[k],
                                ) by {
                            if k == p {
                                assert(file_unit(nations, names, fs[fs.len() - 1]) == Some(
                                    cur[k],
                                ));
                            } else {
                                let i = choose|i: int|
                                    0 <= i < fs.drop_last().len() && file_unit(
                                        nations,
                                        names,
                                        fs.drop_last()[i],
                                    ) == Some(prev[k]);
                                assert(fs[i] == fs.drop_last()[i]);
                            }
                        }
                    },
                    None => {
                        assert(cur == prev.push(uv));
                        assert(cur[cur.len() - 1] == uv);
                        if id == uv.id {
                            assert(yields_id(nations, names, fs[fs.len() - 1], id));
                            assert(cur[cur.len() - 1].id == id);
                        } else {
                            assert forall|i: int|
                                0 <= i < fs.len() && yields_id(
                                    nations,
                                    names,
                                    #[trigger] fs[i],
                                    id,
                                ) implies (exists|k: int|
                                0 <= k < cur.len() && (#[trigger] cur[k]).id == id) by {
                                assert(i < fs.len() - 1);
                                assert(fs.drop_last()[i] == fs[i]);
                                let k = choose|k: int|
                                    0 <= k < prev.len() && (#[trigger] prev[k]).id == id;
                                assert(cur[k].id == id);
                            }
                            if exists|k: int| 0 <= k < cur.len() && (#[trigger] cur[k]).id
                                == id {
                                let k = choose|k: int|
                                    0 <= k < cur.len() && (#[trigger] cur[k]).id == id;
                                assert(k < prev.len());
                                assert(prev[k].id == id);
                                let i = choose|i: int|
                                    0 <= i < fs.drop_last().len() && yields_id(
                                        nations,
                                        names,
                                        #[trigger] fs.drop_last()[i],
                                        id,
                                    );
                                assert(fs[i] == fs.drop_last()[i]);
                                assert(yields_id(nations, names, fs[i], id));
                            }
                        }
                        assert forall|k: int|
                            0 <= k < cur.len() implies exists|i: int|
                                0 <= i < fs.len() && file_unit(nations, names, fs[i]) == Some(
                                    #[trigger] cur[k],
                                ) by {
                            if k == cur.len() - 1 {
                                assert(file_unit(nations, names, fs[fs.len() - 1]) == Some(
                                    cur[k],
                                ));
                            } else {
                                let i = choose|i: int|
                                    0 <= i < fs.drop_last().len() && file_unit(
                                        nations,
                                        names,
                                        fs.drop_last()[i],
                                    ) == Some(prev[k]);
                                assert(fs[i] == fs.drop_last()[i]);
                            }
                        }
                    },
                }
            },
        }
    }
}

/// Catalog lookup succeeds exactly when the list holds the id.
pub proof fn lemma_find_unit_complete(us: Seq<Unit>, id: Seq<char>)
    ensures
        (find_unit(us, id) is Some) <==> (exists|k: int|
            0 <= k < us.len() && (#[trigger] us[k]).id@ == id),
    decreases us.len(),
{
    if us.len() > 0 {
        if us[0].id@ == id {
        } else {
            lemma_find_unit_complete(us.drop_first(), id);
            if find_unit(us.drop_first(), id) is Some {
                let k = choose|k: int|
                    0 <= k < us.drop_first().len() && (#[trigger] us.drop_first()[k]).id@ == id;
                assert(us[k + 1].id@ == id);
            }
            if exists|k: int| 0 <= k < us.len() && (#[trigger] us[k]).id@ == id {
                let k = choose|k: int| 0 <= k < us.len() && (#[trigger] us[k]).id@ == id;
                assert(k >= 1);
                assert(us.drop_first()[k - 1].id@ == id);
            }
        }
    }
}

/// Catalog completeness against `by_id`'s lookup: for a unit list built
/// from a file set, lookup succeeds exactly for the ids some passing file
/// contributed.
pub proof fn lemma_catalog_completeness(
    db: UnitDb,
    nations: Seq<NationV>,
    names: Seq<(Seq<char>, Seq<char>)>,
    fs: Seq<VesselFileV>,
    id: Seq<char>,
)
    requires
        unit_views(db.units@) == vessels_fold(nations, names, fs),
    ensures
        (find_unit(db.units@, id) is Some) <==> (exists|i: int|
            0 <= i < fs.len() && yields_id(nations, names, #[trigger] fs[i], id)),
{
    lemma_vessels_fold_complete(nations, names, fs, id);
    lemma_find_unit_complete(db.units@, id);
    let fold = vessels_fold(nations, names, fs);
    assert(forall|k: int|
        0 <= k < db.units@.len() ==> (#[trigger] db.units@[k]).id@ == fold[k].id);
    if exists|k: int| 0 <= k < fold.len() && (#[trigger] fold[k]).id == id {
        let k = choose|k: int| 0 <= k < fold.len() && (#[trigger] fold[k]).id == id;
        assert(db.units@[k].id@ == id);
    }
    if exists|k: int| 0 <= k < db.units@.len() && (#[trigger] db.units@[k]).id@ == id {
        let k = choose|k: int| 0 <= k < db.units@.len() && (#[trigger] db.units@[k]).id@ == id;
        assert(fold[k].id == id);
    }
}

/// The two fixed per-unit query strings are ASCII without capitals, so a
/// case-insensitive document answers them verbatim.
proof fn lemma_unit_query_ascii()
    ensures
        ascii_no_upper("general"@),
        ascii_no_upper("unittype"@),
{
    reveal_strlit("general");
    reveal_strlit("unittype");
    assert forall|i: int| 0 <= i < "general"@.len() implies (("general"@[i] as u32) < 128 && !(
    'A' <= "general"@[i] <= 'Z')) by {
        assert("general"@.len() == 7);
    }
    assert forall|i: int| 0 <= i < "unittype"@.len() implies (("unittype"@[i] as u32) < 128 && !(
    'A' <= "unittype"@[i] <= 'Z')) by {
        assert("unittype"@.len() == 8);
    }
}

/// The id a unit file's name encodes: the file stem.
pub fn path_to_id(file_name: &str) -> (r: Option<String>)
    ensures
        match r {
            Some(t) => file_name@.len() > 0 && t@ == stem_spec(file_name@),
            None => file_name@.len() == 0,
        },
{
    let len = file_name.unicode_len();
    if len == 0 {
        return None;
    }
    proof {
        lemma_char_last_index(file_name@, '.');
    }
    match rfind_char(file_name, '.') {
        Some(i) => {
            proof {
                match char_last_index(file_name@, '.') {
                    Some(k) => {
                        if k < i {
                            assert(file_name@[i as int] == '.');
                            assert(false);
                        }
                        if k > i {
                            assert(file_name@[k] == '.');
                            assert(false);
                        }
                    },
                    None => {
                        assert(file_name@[i as int] == '.');
                        assert(false);
                    },
                }
            }
            if i > 0 {
                proof {
                    assert(file_name@.subrange(0, i as int) =~= file_name@.take(i as int));
                }
                Some(file_name.substring_char(0, i).to_owned())
            } else {
                Some(file_name.to_owned())
            }
        },
        None => {
            proof {
                match char_last_index(file_name@, '.') {
                    Some(k) => {
                        assert(file_name@[k] == '.');
                        assert(false);
                    },
                    None => {},
                }
            }
            Some(file_name.to_owned())
        },
    }
}

/// A display name's comma-separated parts.
pub fn split_name_parts(name: &str) -> (r: Vec<String>)
    ensures
        string_views(r@) == split_char(name@, ','),
{
    split_by_char(name, ',')
}

/// Store a nation, replacing the entry with its id or appending.
fn upsert_nation(list: &mut Vec<Nation>, n: Nation)
    ensures
        nation_views(final(list)@) == upsert_nationv(nation_views(old(list)@), n@),
        nation_ids(old(list)@).no_duplicates() ==> nation_ids(final(list)@).no_duplicates(),
{
    let ghost key = |x: NationV| x.id;
    let ghost vs = nation_views(list@);
    let mut j: usize = 0;
    let len = list.len();
    while j < len
        invariant
            j <= len,
            len == list@.len(),
            list@ == old(list)@,
            vs == nation_views(list@),
            key == (|x: NationV| x.id),
            forall|k: int| 0 <= k < j ==> #[trigger] list@[k].id@ != n.id@,
        decreases len - j,
    {
        if str_eq(list[j].id.as_str(), n.id.as_str()) {
            proof {
                lemma_first_key_index(vs, key, n@.id);
                assert(key(vs[j as int]) == n@.id);
                match first_key_index(vs, key, n@.id) {
                    Some(i) => {
                        if i < j {
                            assert(list@[i].id@ != n.id@);
                            assert(key(vs[i]) == n@.id);
                            assert(false);
                        }
                        if i > j {
                            assert(key(vs[j as int]) != n@.id);
                            assert(false);
                        }
                    },
                    None => {
                        assert(key(vs[j as int]) != n@.id);
                        assert(false);
                    },
                }
            }
            let ghost old_ids = nation_ids(list@);
            list.set(j, n);
            proof {
                assert(nation_views(list@) =~= upsert_nationv(vs, n@));
                assert(nation_ids(list@) =~= old_ids);
            }
            return;
        }
        j = j + 1;
    }
    proof {
        lemma_first_key_index(vs, key, n@.id);
        match first_key_index(vs, key, n@.id) {
            Some(i) => {
                assert(list@[i].id@ != n.id@);
                assert(key(vs[i]) == n@.id);
                assert(false);
            },
            None => {},
        }
    }
    let ghost old_ids = nation_ids(list@);
    list.push(n);
    proof {
        assert(nation_views(list@) =~= upsert_nationv(vs, n@));
        assert(nation_ids(list@) =~= old_ids.push(n.id@));
        if old_ids.no_duplicates() {
            assert(nation_ids(list@).no_duplicates());
        }
    }
}

/// Store a name-table pair, replacing the entry with its id or appending.
fn upsert_name(list: &mut Vec<(String, String)>, p: (String, String))
    ensures
        name_pairs(final(list)@) == upsert_namev(name_pairs(old(list)@), (p.0@, p.1@)),
{
    let ghost key = |x: (Seq<char>, Seq<char>)| x.0;
    let ghost vs = name_pairs(list@);
    let ghost pv = (p.0@, p.1@);
    let mut j: usize = 0;
    let len = list.len();
    while j < len
        invariant
            j <= len,
            len == list@.len(),
            list@ == old(list)@,
            vs == name_pairs(list@),
            key == (|x: (Seq<char>, Seq<char>)| x.0),
            pv == (p.0@, p.1@),
            forall|k: int| 0 <= k < j ==> #[trigger] list@[k].0@ != p.0@,
        decreases len - j,
    {
        if str_eq(list[j].0.as_str(), p.0.as_str()) {
            proof {
                lemma_first_key_index(vs, key, pv.0);
                assert(key(vs[j as int]) == pv.0);
                match first_key_index(vs, key, pv.0) {
                    Some(i) => {
                        if i < j {
                            assert(list@[i].0@ != p.0@);
                            assert(key(vs[i]) == pv.0);
                            assert(false);
                        }
                        if i > j {
                            assert(key(vs[j as int]) != pv.0);
                            assert(false);
                        }
                    },
                    None => {
                        assert(key(vs[j as int]) != pv.0);
                        assert(false);
                    },
                }
            }
            list.set(j, p);
            proof {
                assert(name_pairs(list@) =~= upsert_namev(vs, pv));
            }
            return;
        }
        j = j + 1;
    }
    proof {
        lemma_first_key_index(vs, key, pv.0);
        match first_key_index(vs, key, pv.0) {
            Some(i) => {
                assert(list@[i].0@ != p.0@);
                assert(key(vs[i]) == pv.0);
                assert(false);
            },
            None => {},
        }
    }
    list.push(p);
    proof {
        assert(name_pairs(list@) =~= upsert_namev(vs, pv));
    }
}

/// Store a unit, replacing the entry with its id or appending.
fn upsert_unit(list: &mut Vec<Unit>, u: Unit)
    ensures
        unit_views(final(list)@) == upsert_unitv(unit_views(old(list)@), u@),
        unit_ids(old(list)@).no_duplicates() ==> unit_ids(final(list)@).no_duplicates(),
{
    let ghost key = |x: UnitV| x.id;
    let ghost vs = unit_views(list@);
    let mut j: usize = 0;
    let len = list.len();
    while j < len
        invariant
            j <= len,
            len == list@.len(),
            list@ == old(list)@,
            vs == unit_views(list@),
            key == (|x: UnitV| x.id),
            forall|k: int| 0 <= k < j ==> #[trigger] list@[k].id@ != u.id@,
        decreases len - j,
    {
        if str_eq(list[j].id.as_str(), u.id.as_str()) {
            proof {
                lemma_first_key_index(vs, key, u@.id);
                assert(key(vs[j as int]) == u@.id);
                match first_key_index(vs, key, u@.id) {
                    Some(i) => {
                        if i < j {
                            assert(list@[i].id@ != u.id@);
                            assert(key(vs[i]) == u@.id);
                            assert(false);
                        }
                        if i > j {
                            assert(key(vs[j as int]) != u@.id);
                            assert(false);
                        }
                    },
                    None => {
                        assert(key(vs[j as int]) != u@.id);
                        assert(false);
                    },
                }
            }
            let ghost old_ids = unit_ids(list@);
            list.set(j, u);
            proof {
                assert(unit_views(list@) =~= upsert_unitv(vs, u@));
                assert(unit_ids(list@) =~= old_ids);
            }
            return;
        }
        j = j + 1;
    }
    proof {
        lemma_first_key_index(vs, key, u@.id);
        match first_key_index(vs, key, u@.id) {
            Some(i) => {
                assert(list@[i].id@ != u.id@);
                assert(key(vs[i]) == u@.id);
                assert(false);
            },
            None => {},
        }
    }
    let ghost old_ids = unit_ids(list@);
    list.push(u);
    proof {
        assert(unit_views(list@) =~= upsert_unitv(vs, u@));
        assert(unit_ids(list@) =~= old_ids.push(u.id@));
        if old_ids.no_duplicates() {
            assert(unit_ids(list@).no_duplicates());
        }
    }
}

/// Find a nation by id in a nation list.
fn lookup_nation<'a>(ns: &'a Vec<Nation>, id: &str) -> (r: Option<&'a Nation>)
    ensures
        match r {
            Some(n) => find_nationv(nation_views(ns@), id@) == Some(n@),
            None => find_nationv(nation_views(ns@), id@) is None,
        },
{
    let ghost key = |x: NationV| x.id;
    let ghost vs = nation_views(ns@);
    let mut j: usize = 0;
    let len = ns.len();
    while j < len
        invariant
            j <= len,
            len == ns@.len(),
            vs == nation_views(ns@),
            key == (|x: NationV| x.id),
            forall|k: int| 0 <= k < j ==> #[trigger] ns@[k].id@ != id@,
        decreases len - j,
    {
        if str_eq(ns[j].id.as_str(), id) {
            proof {
                lemma_first_key_index(vs, key, id@);
                assert(key(vs[j as int]) == id@);
                match first_key_index(vs, key, id@) {
                    Some(i) => {
                        if i < j {
                            assert(ns@[i].id@ != id@);
                            assert(key(vs[i]) == id@);
                            assert(false);
                        }
                        if i > j {
                            assert(key(vs[j as int]) != id@);
                            assert(false);
                        }
                    },
                    None => {
                        assert(key(vs[j as int]) != id@);
                        assert(false);
                    },
                }
            }
            return Some(&ns[j]);
        }
        j = j + 1;
    }
    proof {
        lemma_first_key_index(vs, key, id@);
        match first_key_index(vs, key, id@) {
            Some(i) => {
                assert(ns@[i].id@ != id@);
                assert(key(vs[i]) == id@);
                assert(false);
            },
            None => {},
        }
    }
    None
}

/// Find the registered display name for an id in a name table.
fn names_get(names: &Vec<(String, String)>, id: &str) -> (r: Option<String>)
    ensures
        match r {
            Some(v) => find_namev(name_pairs(names@), id@) == Some(v@),
            None => find_namev(name_pairs(names@), id@) is None,
        },
{
    let ghost key = |x: (Seq<char>, Seq<char>)| x.0;
    let ghost vs = name_pairs(names@);
    let mut j: usize = 0;
    let len = names.len();
    while j < len
        invariant
            j <= len,
            len == names@.len(),
            vs == name_pairs(names@),
            key == (|x: (Seq<char>, Seq<char>)| x.0),
            forall|k: int| 0 <= k < j ==> #[trigger] names@[k].0@ != id@,
        decreases len - j,
    {
        if str_eq(names[j].0.as_str(), id) {
            proof {
                lemma_first_key_index(vs, key, id@);
                assert(key(vs[j as int]) == id@);
                match first_key_index(vs, key, id@) {
                    Some(i) => {
                        if i < j {
                            assert(names@[i].0@ != id@);
                            assert(key(vs[i]) == id@);
                            assert(false);
                        }
                        if i > j {
                            assert(key(vs[j as int]) != id@);
                            assert(false);
                        }
                    },
                    None => {
                        assert(key(vs[j as int]) != id@);
                        assert(false);
                    },
                }
            }
            return Some(names[j].1.clone());
        }
        j = j + 1;
    }
    proof {
        lemma_first_key_index(vs, key, id@);
        match first_key_index(vs, key, id@) {
            Some(i) => {
                assert(names@[i].0@ != id@);
                assert(key(vs[i]) == id@);
                assert(false);
            },
            None => {},
        }
    }
    None
}

/// Build the nation table from the parsed nation-reference document.
pub fn load_nation_reference(sections: &Vec<IniSection>) -> (r: Vec<Nation>)
    ensures
        nation_views(r@) == nation_fold(sections@),
        nation_ids(r@).no_duplicates(),
{
    let mut r: Vec<Nation> = Vec::new();
    let mut si: usize = 0;
    let len = sections.len();
    proof {
        assert(sections@.take(0) =~= Seq::<IniSection>::empty());
        assert(nation_views(r@) =~= nation_fold(sections@.take(0)));
        assert(nation_ids(r@) =~= Seq::<Seq<char>>::empty());
    }
    while si < len
        invariant
            si <= len,
            len == sections@.len(),
            nation_views(r@) == nation_fold(sections@.take(si as int)),
            nation_ids(r@).no_duplicates(),
        decreases len - si,
    {
        proof {
            assert(sections@.take(si + 1).drop_last() =~= sections@.take(si as int));
            assert(sections@.take(si + 1).last() == sections@[si as int]);
        }
        let sec = &sections[si];
        let id_opt = entries_get(&sec.entries, "nationprefix");
        let name_opt = entries_get(&sec.entries, "nationname");
        match (id_opt, name_opt) {
            (Some(id), Some(name)) => {
                upsert_nation(&mut r, Nation { id, name });
            },
            _ => {},
        }
        si = si + 1;
    }
    proof {
        assert(sections@.take(len as int) =~= sections@);
    }
    r
}

/// Build the unit-name table from the parsed vessel-name document.
pub fn load_vessel_names(sections: &Vec<IniSection>) -> (r: Vec<(String, String)>)
    ensures
        name_pairs(r@) == names_fold(sections@),
{
    let mut r: Vec<(String, String)> = Vec::new();
    let mut si: usize = 0;
    let len = sections.len();
    proof {
        assert(sections@.take(0) =~= Seq::<IniSection>::empty());
        assert(name_pairs(r@) =~= names_fold(sections@.take(0)));
    }
    while si < len
        invariant
            si <= len,
            len == sections@.len(),
            name_pairs(r@) == names_fold(sections@.take(si as int)),
        decreases len - si,
    {
        proof {
            assert(sections@.take(si + 1).drop_last() =~= sections@.take(si as int));
            assert(sections@.take(si + 1).last() == sections@[si as int]);
        }
        let sec = &sections[si];
        match entries_get(&sec.entries, "default") {
            Some(v) => {
                proof {
                    lemma_split_char_len(v@, ',');
                }
                let parts = split_name_parts(v.as_str());
                let name = parts[0].clone();
                upsert_name(&mut r, (sec.name.clone(), name));
            },
            None => {},
        }
        si = si + 1;
    }
    proof {
        assert(sections@.take(len as int) =~= sections@);
    }
    r
}

/// Build the unit index from the candidate files of the vessels directory,
/// skipping every record that fails a check.
pub fn load_vessels(
    nations: &Vec<Nation>,
    names: &Vec<(String, String)>,
    files: &Vec<VesselFile>,
) -> (r: Vec<Unit>)
    ensures
        unit_views(r@) == vessels_fold(
            nation_views(nations@),
            name_pairs(names@),
            vessel_file_views(files@),
        ),
        unit_ids(r@).no_duplicates(),
{
    let ghost nv = nation_views(nations@);
    let ghost nmv = name_pairs(names@);
    let ghost fv = vessel_file_views(files@);
    let mut r: Vec<Unit> = Vec::new();
    let mut fi: usize = 0;
    let len = files.len();
    proof {
        assert(fv.take(0) =~= Seq::<VesselFileV>::empty());
        assert(unit_views(r@) =~= vessels_fold(nv, nmv, fv.take(0)));
        assert(unit_ids(r@) =~= Seq::<Seq<char>>::empty());
    }
    while fi < len
        invariant
            fi <= len,
            len == files@.len(),
            nv == nation_views(nations@),
            nmv == name_pairs(names@),
            fv == vessel_file_views(files@),
            unit_views(r@) == vessels_fold(nv, nmv, fv.take(fi as int)),
            unit_ids(r@).no_duplicates(),
        decreases len - fi,
    {
        proof {
            assert(fv.take(fi + 1).drop_last() =~= fv.take(fi as int));
            assert(fv.take(fi + 1).last() == fv[fi as int]);
            assert(fv[fi as int] == files@[fi as int]@);
        }
        let file = &files[fi];
        let ghost fview = file@;
        let mut added: Option<Unit> = None;
        match path_to_id(file.file_name.as_str()) {
            None => {},
            Some(stem) => {
                if !str_ends_with(stem.as_str(), "_variants") {
                    proof {
                        lemma_char_index(stem@, '_');
                    }
                    match find_char(stem.as_str(), '_') {
                        None => {
                            proof {
                                match char_index(stem@, '_') {
                                    Some(k) => {
                                        assert(stem@[k] == '_');
                                        assert(false);
                                    },
                                    None => {},
                                }
                            }
                        },
                        Some(ui) => {
                            proof {
                                match char_index(stem@, '_') {
                                    Some(k) => {
                                        if k < ui {
                                            assert(stem@[k] != '_');
                                            assert(false);
                                        }
                                        if k > ui {
                                            assert(stem@[ui as int] != '_');
                                            assert(false);
                                        }
                                    },
                                    None => {
                                        assert(stem@[ui as int] == '_');
                                        assert(false);
                                    },
                                }
                            }
                            match names_get(names, stem.as_str()) {
                                None => {},
                                Some(name) => {
                                    let nation_prefix = stem.as_str().substring_char(0, ui);
                                    proof {
                                        assert(stem@.subrange(0, ui as int) =~= stem@.take(
                                            ui as int,
                                        ));
                                    }
                                    match lookup_nation(nations, nation_prefix) {
                                        None => {},
                                        Some(nation) => match &file.text {
                                            None => {},
                                            Some(text) => {
                                                let mut doc = ini_new();
                                                match ini_read(&mut doc, text.clone()) {
                                                    Err(_) => {},
                                                    Ok(()) => {
                                                        proof {
                                                            lemma_unit_query_ascii();
                                                        }
                                                        match ini_get(
                                                            &doc,
                                                            "general",
                                                            "unittype",
                                                        ) {
                                                            None => {},
                                                            Some(tval) => match UnitType::try_from(
                                                                tval.as_str(),
                                                            ) {
                                                                Err(_) => {},
                                                                Ok(utype) => {
                                                                    added = Some(
                                                                        Unit {
                                                                            id: stem,
                                                                            name,
                                                                            nation:
                                                                                nation.duplicate(),
                                                                            utype,
                                                                        },
                                                                    );
                                                                },
                                                            },
                                                        }
                                                    },
                                                }
                                            },
                                        },
                                    }
                                },
                            }
                        },
                    }
                }
            },
        }
        match added {
            Some(unit) => {
                proof {
                    assert(file_unit(nv, nmv, fview) == Some(unit@));
                }
                upsert_unit(&mut r, unit);
            },
            None => {
                proof {
                    assert(file_unit(nv, nmv, fview) is None);
                }
            },
        }
        fi = fi + 1;
    }
    proof {
        assert(fv.take(len as int) =~= fv);
    }
    r
}

impl UnitDb {
    /// Build the catalog: parse the nation-reference and vessel-name
    /// documents, then index every unit file that passes all checks.
    /// Construction fails only when a reference document does not parse.
    pub fn new(
        nations_src: &SourceDoc,
        names_src: &SourceDoc,
        vessel_files: &Vec<VesselFile>,
    ) -> (r: Result<UnitDb, UnitDbError>)
        ensures
            (r is Ok) == (ini_parse(nations_src.text@, false) is Ok && ini_parse(
                names_src.text@,
                false,
            ) is Ok),
            r matches Ok(db) ==> db.wf(),
            r matches Ok(db) ==> exists|nsecs: Seq<IniSection>, msecs: Seq<IniSection>|
                crate::ini::well_read(nsecs) && crate::ini::well_read(msecs)
                    && sections_model(nsecs) == ini_parse(nations_src.text@, false)->Ok_0
                    && sections_model(msecs) == ini_parse(names_src.text@, false)->Ok_0
                    && nation_views(db.nations@) == nation_fold(nsecs) && unit_views(db.units@)
                    == vessels_fold(
                    nation_fold(nsecs),
                    names_fold(msecs),
                    vessel_file_views(vessel_files@),
                ),
            r matches Err(e) ==> match e {
                UnitDbError::ParseError { file, reason } => if ini_parse(
                    nations_src.text@,
                    false,
                ) is Err {
                    file@ == nations_src.path@ && reason@ == ini_parse(
                        nations_src.text@,
                        false,
                    )->Err_0
                } else {
                    file@ == names_src.path@ && reason@ == ini_parse(names_src.text@, false)->Err_0
                },
                UnitDbError::IOError(_) => false,
            },
    {
        let mut nations_ini = ini_new();
        match ini_read(&mut nations_ini, nations_src.text.clone()) {
            Err(e) => {
                return Err(
                    UnitDbError::ParseError { file: nations_src.path.clone(), reason: e },
                );
            },
            Ok(()) => {},
        }
        let nation_sections = ini_sections(&nations_ini);
        let nations = load_nation_reference(&nation_sections);

        let mut names_ini = ini_new();
        match ini_read(&mut names_ini, names_src.text.clone()) {
            Err(e) => {
                return Err(UnitDbError::ParseError { file: names_src.path.clone(), reason: e });
            },
            Ok(()) => {},
        }
        let name_sections = ini_sections(&names_ini);
        let names = load_vessel_names(&name_sections);

        let units = load_vessels(&nations, &names, vessel_files);
        let db = UnitDb { nations, units };
        proof {
            let nsecs = nation_sections@;
            let msecs = name_sections@;
            assert(crate::ini::well_read(nsecs) && crate::ini::well_read(msecs)
                && sections_model(nsecs) == ini_parse(nations_src.text@, false)->Ok_0
                && sections_model(msecs) == ini_parse(names_src.text@, false)->Ok_0 && nation_views(
                db.nations@,
            ) == nation_fold(nsecs) && unit_views(db.units@) == vessels_fold(
                nation_fold(nsecs),
                names_fold(msecs),
                vessel_file_views(vessel_files@),
            ));
        }
        Ok(db)
    }
}

} // verus!
