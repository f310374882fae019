//! Declarative mission input, selection resolution, taskforce assembly with
//! stable per-kind ordinals, and serialization of the assembled mission
//! into the game's sectioned key/value schema.

use vstd::prelude::*;
use vstd::string::StrSliceExecFns;
use vstd::string::StringExecFns;

use crate::dec_spec;
use crate::ini::doc_lookup;
use crate::ini::doc_set;
use crate::ini::ini_doc;
use crate::ini::ini_opts;
use crate::ini::ini_set;
use crate::rng::random_heading;
use crate::rng::random_index;
use crate::usize_to_string;
use crate::unit_db;
use crate::unit_db::find_unit;
use crate::unit_db::opt_str_view;
use crate::unit_db::plural_spec;
use crate::unit_db::singular_spec;
use crate::unit_db::unit_matches;
use crate::unit_db::UnitDb;
use crate::unit_db::UnitType;

verus! {

/// The weapon posture applied uniformly to every unit of a taskforce.
#[derive(Copy, Clone, Debug, PartialEq, Eq, Structural)]
pub enum WeaponState {
    Free,
    Tight,
    Hold,
}

/// The external text of a weapon posture.
pub open spec fn weapon_state_str(w: WeaponState) -> Seq<char> {
    match w {
        WeaponState::Free => "Free"@,
        WeaponState::Tight => "Tight"@,
        WeaponState::Hold => "Hold"@,
    }
}

impl WeaponState {
    /// The posture rendered as the text the output schema uses.
    pub fn to_string(&self) -> (r: String)
        ensures
            r@ == weapon_state_str(*self),
    {
        match self {
            WeaponState::Free => "Free".to_owned(),
            WeaponState::Tight => "Tight".to_owned(),
            WeaponState::Hold => "Hold".to_owned(),
        }
    }
}

/// A declarative request for one unit: a fixed catalog id, or a uniform
/// random draw over the catalog entries passing the filters.
#[derive(Clone, Debug)]
pub enum UnitOption {
    Unit(String),
    Random { nation: Option<String>, utype: Option<UnitType> },
}

/// The mathematical value of a `UnitOption`.
pub ghost enum UnitOptionV {
    Unit(Seq<char>),
    Random { nation: Option<Seq<char>>, utype: Option<UnitType> },
}

impl View for UnitOption {
    type V = UnitOptionV;

    open spec fn view(&self) -> UnitOptionV {
        match self {
            UnitOption::Unit(id) => UnitOptionV::Unit(id@),
            UnitOption::Random { nation, utype } => UnitOptionV::Random {
                nation: match nation {
                    Some(n) => Some(n@),
                    None => None,
                },
                utype: *utype,
            },
        }
    }
}

impl UnitOption {
    /// An equal option, field for field.
    pub fn duplicate(&self) -> (r: UnitOption)
        ensures
            r == *self,
    {
        match self {
            UnitOption::Unit(id) => UnitOption::Unit(id.clone()),
            UnitOption::Random { nation, utype } => UnitOption::Random {
                nation: match nation {
                    Some(n) => Some(n.clone()),
                    None => None,
                },
                utype: *utype,
            },
        }
    }
}

/// What resolving an explicit id must return: exactly what catalog lookup
/// finds, independent of any random state.
pub open spec fn resolve_explicit_post(
    db: UnitDb,
    id: Seq<char>,
    r: Option<unit_db::Unit>,
) -> bool {
    match r {
        Some(u) => find_unit(db.units@, id) == Some(u),
        None => find_unit(db.units@, id) is None,
    }
}

/// The candidate pool of a random draw: the filtered search result.
pub open spec fn random_pool(
    db: UnitDb,
    nation: Option<Seq<char>>,
    utype: Option<UnitType>,
) -> Seq<unit_db::Unit> {
    db.units@.filter(|u: unit_db::Unit| unit_matches(u, nation, utype))
}

/// What resolving a random draw must return: nothing exactly when the pool
/// is empty, otherwise some unit of the pool.
pub open spec fn resolve_random_post(
    db: UnitDb,
    nation: Option<Seq<char>>,
    utype: Option<UnitType>,
    r: Option<unit_db::Unit>,
) -> bool {
    &&& (r is Some) == (random_pool(db, nation, utype).len() > 0)
    &&& match r {
        Some(u) => random_pool(db, nation, utype).contains(u),
        None => true,
    }
}

/// Turn one declarative option into at most one concrete catalog unit: an
/// explicit id resolves by lookup, a random draw picks uniformly from the
/// filtered pool; an unknown id or an empty pool resolves to nothing.
pub fn resolve(option: &UnitOption, unit_db: &UnitDb) -> (r: Option<unit_db::Unit>)
    ensures
        match option@ {
            UnitOptionV::Unit(id) => resolve_explicit_post(*unit_db, id, r),
            UnitOptionV::Random { nation, utype } => resolve_random_post(
                *unit_db,
                nation,
                utype,
                r,
            ),
        },
{
    match option {
        UnitOption::Unit(id) => match unit_db.by_id(id.as_str()) {
            Some(u) => Some(u.duplicate()),
            None => None,
        },
        UnitOption::Random { nation, utype } => {
            let nation_filter: Option<&str> = match nation {
                Some(n) => Some(n.as_str()),
                None => None,
            };
            let pool = unit_db.search(nation_filter, *utype);
            proof {
                assert(opt_str_view(nation_filter) == match option@ {
                    UnitOptionV::Random { nation: nv, .. } => nv,
                    _ => None,
                });
            }
            if pool.len() == 0 {
                None
            } else {
                let i = random_index(pool.len());
                Some(pool[i].duplicate())
            }
        },
    }
}

/// Resolution of an explicit id is deterministic: any two results the
/// resolver's contract allows for the same id and catalog are the same
/// result, and it is exactly what `by_id` finds for that id.
pub proof fn lemma_resolve_explicit_deterministic(
    db: UnitDb,
    id: Seq<char>,
    r1: Option<unit_db::Unit>,
    r2: Option<unit_db::Unit>,
)
    requires
        resolve_explicit_post(db, id, r1),
        resolve_explicit_post(db, id, r2),
    ensures
        r1 == r2,
        r1 == find_unit(db.units@, id),
{
}

/// A random draw resolves to nothing or to a unit of the filtered search
/// result, and to nothing exactly when that result is empty.
pub proof fn lemma_resolve_random_contained(
    db: UnitDb,
    nation: Option<Seq<char>>,
    utype: Option<UnitType>,
    r: Option<unit_db::Unit>,
)
    requires
        resolve_random_post(db, nation, utype, r),
    ensures
        r matches Some(u) ==> random_pool(db, nation, utype).contains(u),
        (r is None) == (random_pool(db, nation, utype).len() == 0),
{
}

/// Whether one option is sure to resolve: an explicit id the catalog
/// holds, or a random draw whose pool is nonempty.  Which unit a draw
/// picks is random; whether it picks one is not.
pub open spec fn option_resolves(db: UnitDb, o: UnitOption) -> bool {
    match o@ {
        UnitOptionV::Unit(id) => find_unit(db.units@, id) is Some,
        UnitOptionV::Random { nation, utype } => random_pool(db, nation, utype).len() > 0,
    }
}

/// How many options of a list resolve.
pub open spec fn resolving_count(db: UnitDb, os: Seq<UnitOption>) -> nat
    decreases os.len(),
{
    if os.len() == 0 {
        0
    } else {
        resolving_count(db, os.drop_last()) + (if option_resolves(db, os.last()) {
            1nat
        } else {
            0nat
        })
    }
}

/// How many units a formation list's members resolve to, all together.
pub open spec fn formations_resolving_count(db: UnitDb, fs: Seq<FormationOption>) -> nat
    decreases fs.len(),
{
    if fs.len() == 0 {
        0
    } else {
        formations_resolving_count(db, fs.drop_last()) + resolving_count(
            db,
            fs.last().units@,
        )
    }
}

/// Mission-wide generation input: the map center, rendered as decimal
/// text, and the size in nautical miles of the box the mission takes
/// place in, which bounds every random offset.
#[derive(Debug)]
pub struct GeneralOptions {
    pub latlon: (String, String),
    pub size: (u16, u16),
}

/// One resolved, placed unit of a taskforce: the catalog id, a heading
/// below 360, and an offset from the map center, rendered as decimal text.
/// Heading and offset are drawn once and never re-rolled.
#[derive(Debug)]
pub struct Unit {
    pub id: String,
    pub heading: u16,
    pub position: (String, String),
}

/// The mathematical value of a placed unit.
pub ghost struct SpawnV {
    pub id: Seq<char>,
    pub heading: u16,
    pub position: (Seq<char>, Seq<char>),
}

impl View for Unit {
    type V = SpawnV;

    open spec fn view(&self) -> SpawnV {
        SpawnV { id: self.id@, heading: self.heading, position: (self.position.0@, self.position.1@) }
    }
}

/// A signed count of hundredths rendered as decimal text with two places
/// after the point.
pub open spec fn hundredths_str(h: int) -> Seq<char> {
    let a = if h < 0 {
        -h
    } else {
        h
    };
    let sign: Seq<char> = if h < 0 {
        "-"@
    } else {
        Seq::empty()
    };
    sign + dec_spec((a / 100) as nat) + "."@ + dec_spec(((a % 100) / 10) as nat) + dec_spec(
        (a % 10) as nat,
    )
}

/// Render a signed count of hundredths; a zero magnitude never carries a
/// sign.
fn hundredths_to_string(neg: bool, mag: u32) -> (r: String)
    ensures
        r@ == hundredths_str(
            if neg {
                -(mag as int)
            } else {
                mag as int
            },
        ),
{
    let mut s = if neg && mag > 0 {
        "-".to_owned()
    } else {
        String::new()
    };
    s.append(usize_to_string((mag / 100) as usize).as_str());
    s.append(".");
    s.append(usize_to_string(((mag % 100) / 10) as usize).as_str());
    s.append(usize_to_string((mag % 10) as usize).as_str());
    proof {
        let h: int = if neg {
            -(mag as int)
        } else {
            mag as int
        };
        assert(s@ =~= hundredths_str(h));
    }
    s
}

/// One coordinate of a random offset: drawn uniformly, in steps of a
/// hundredth of a nautical mile, from the interval spanning the extent and
/// centered on the origin.
fn random_coordinate(extent: u16) -> (r: String)
    ensures
        exists|h: int|
            -50 * (extent as int) <= h <= 50 * (extent as int) && r@ == hundredths_str(h),
{
    let half: u32 = (extent as u32) * 50;
    let span: usize = (half as usize) * 2 + 1;
    let ix = random_index(span);
    let (neg, mag) = if (ix as u32) >= half {
        (false, ix as u32 - half)
    } else {
        (true, half - ix as u32)
    };
    let r = hundredths_to_string(neg, mag);
    proof {
        let h: int = if neg {
            -(mag as int)
        } else {
            mag as int
        };
        assert(-50 * (extent as int) <= h <= 50 * (extent as int) && r@ == hundredths_str(h));
    }
    r
}

/// A placed unit's offset was drawn within the mission's box: each
/// coordinate renders a count of hundredths no farther out than half the
/// box's extent.
pub open spec fn offset_in_box(general: GeneralOptions, u: Unit) -> bool {
    &&& exists|h: int|
        -50 * (general.size.0 as int) <= h <= 50 * (general.size.0 as int) && u.position.0@
            == hundredths_str(h)
    &&& exists|h: int|
        -50 * (general.size.1 as int) <= h <= 50 * (general.size.1 as int) && u.position.1@
            == hundredths_str(h)
}

impl Unit {
    /// A freshly placed unit: the given id with a newly rolled heading and
    /// an offset bounded by the mission's box.
    pub fn new(general: &GeneralOptions, id: &str) -> (r: Unit)
        ensures
            r.id@ == id@,
            r.heading < 360,
            offset_in_box(*general, r),
    {
        Unit {
            id: id.to_owned(),
            heading: random_heading(),
            position: (random_coordinate(general.size.0), random_coordinate(general.size.1)),
        }
    }
}

/// A named sub-grouping of a taskforce: a flat list of member options.
#[derive(Clone, Debug)]
pub struct FormationOption {
    pub units: Vec<UnitOption>,
}

/// One side's full declarative configuration.
#[derive(Clone, Debug)]
pub struct TaskforceOptions {
    pub weapon_state: WeaponState,
    pub units: Vec<UnitOption>,
    pub formations: Vec<FormationOption>,
}

/// The per-kind lists of resolved units; a unit's ordinal is its index in
/// its kind's list.
#[derive(Debug)]
pub struct UnitsByKind {
    pub ships: Vec<Unit>,
    pub submarines: Vec<Unit>,
    pub helicopters: Vec<Unit>,
    pub fixed_wings: Vec<Unit>,
}

impl UnitsByKind {
    /// The list a kind's units live in.
    pub open spec fn of(self, t: UnitType) -> Seq<Unit> {
        match t {
            UnitType::Ship => self.ships@,
            UnitType::Submarine => self.submarines@,
            UnitType::Helicopter => self.helicopters@,
            UnitType::FixedWing => self.fixed_wings@,
        }
    }

    /// An empty set of lists.
    pub fn new() -> (r: UnitsByKind)
        ensures
            forall|t: UnitType| #[trigger] r.of(t).len() == 0,
    {
        UnitsByKind {
            ships: Vec::new(),
            submarines: Vec::new(),
            helicopters: Vec::new(),
            fixed_wings: Vec::new(),
        }
    }

    /// How many units of a kind have been placed.
    pub fn len_of(&self, t: UnitType) -> (r: usize)
        ensures
            r == self.of(t).len(),
    {
        match t {
            UnitType::Ship => self.ships.len(),
            UnitType::Submarine => self.submarines.len(),
            UnitType::Helicopter => self.helicopters.len(),
            UnitType::FixedWing => self.fixed_wings.len(),
        }
    }

    /// The unit at an ordinal of a kind.
    pub fn unit_at(&self, t: UnitType, i: usize) -> (r: &Unit)
        requires
            i < self.of(t).len(),
        ensures
            *r == self.of(t)[i as int],
    {
        match t {
            UnitType::Ship => &self.ships[i],
            UnitType::Submarine => &self.submarines[i],
            UnitType::Helicopter => &self.helicopters[i],
            UnitType::FixedWing => &self.fixed_wings[i],
        }
    }

    /// Append a unit to its kind's list.
    fn push_unit(&mut self, t: UnitType, u: Unit)
        ensures
            final(self).of(t) == old(self).of(t).push(u),
            forall|s: UnitType| s != t ==> #[trigger] final(self).of(s) == old(self).of(s),
    {
        match t {
            UnitType::Ship => self.ships.push(u),
            UnitType::Submarine => self.submarines.push(u),
            UnitType::Helicopter => self.helicopters.push(u),
            UnitType::FixedWing => self.fixed_wings.push(u),
        }
    }
}

/// A placed unit that stands for some catalog entry of the right kind, with
/// a legal heading.
pub open spec fn spawned_from(db: UnitDb, t: UnitType, u: Unit) -> bool {
    &&& exists|k: int|
        0 <= k < db.units@.len() && (#[trigger] db.units@[k]).id@ == u.id@ && db.units@[k].utype
            == t
    &&& u.heading < 360
}

/// How many units stand in all four per-kind lists together.
pub open spec fn total_units(u: UnitsByKind) -> nat {
    u.of(UnitType::Ship).len() + u.of(UnitType::Submarine).len() + u.of(
        UnitType::Helicopter,
    ).len() + u.of(UnitType::FixedWing).len()
}

/// Old lists are unchanged prefixes of new ones, for every kind.
pub open spec fn lists_extended(before: UnitsByKind, after: UnitsByKind) -> bool {
    forall|t: UnitType| (#[trigger] before.of(t)).is_prefix_of(after.of(t))
}

/// One placement reference answers one option: the reference indexes its
/// kind's list, and the unit there carries the id the option resolved to —
/// the explicit id itself (of that catalog entry's kind), or the id of
/// some member of the draw's filtered pool, of that member's kind.
pub open spec fn placement_matches(
    db: UnitDb,
    o: UnitOption,
    r: (UnitType, usize),
    units: UnitsByKind,
) -> bool {
    &&& r.1 < units.of(r.0).len()
    &&& match o@ {
        UnitOptionV::Unit(id) => {
            &&& find_unit(db.units@, id) matches Some(u) && r.0 == u.utype
            &&& units.of(r.0)[r.1 as int].id@ == id
        },
        UnitOptionV::Random { nation, utype } => exists|k: int|
            0 <= k < random_pool(db, nation, utype).len() && r.0 == (#[trigger] random_pool(
                db,
                nation,
                utype,
            )[k]).utype && units.of(r.0)[r.1 as int].id@ == random_pool(db, nation, utype)[k].id@,
    }
}

/// Within one reference list, each kind's ordinals come out ascending: the
/// references follow option order.
pub open spec fn refs_kind_ascending(refs: Seq<(UnitType, usize)>) -> bool {
    forall|j1: int, j2: int|
        #![trigger refs[j1], refs[j2]]
        0 <= j1 < j2 < refs.len() && refs[j1].0 == refs[j2].0 ==> refs[j1].1 < refs[j2].1
}

/// Each option of a list is answered by the reference at its resolving
/// rank: the number of resolving options before it.
pub open spec fn placements_match(
    db: UnitDb,
    opts: Seq<UnitOption>,
    refs: Seq<(UnitType, usize)>,
    units: UnitsByKind,
) -> bool {
    forall|i: int|
        0 <= i < opts.len() && option_resolves(db, #[trigger] opts[i])
            ==> resolving_count(db, opts.take(i)) < refs.len() && placement_matches(
            db,
            opts[i],
            refs[resolving_count(db, opts.take(i)) as int],
            units,
        )
}

/// A placement stays answered as the per-kind lists grow at their ends.
proof fn lemma_placement_stable(
    db: UnitDb,
    o: UnitOption,
    r: (UnitType, usize),
    before: UnitsByKind,
    after: UnitsByKind,
)
    requires
        lists_extended(before, after),
        placement_matches(db, o, r, before),
    ensures
        placement_matches(db, o, r, after),
{
    assert(before.of(r.0).is_prefix_of(after.of(r.0)));
    assert(before.of(r.0) =~= after.of(r.0).subrange(0, before.of(r.0).len() as int));
    assert(after.of(r.0)[r.1 as int] == before.of(r.0)[r.1 as int]);
    match o@ {
        UnitOptionV::Unit(id) => {},
        UnitOptionV::Random { nation, utype } => {
            let pool = random_pool(db, nation, utype);
            let k = choose|k: int|
                0 <= k < pool.len() && r.0 == pool[k].utype && before.of(r.0)[r.1 as int].id@
                    == pool[k].id@;
            assert(0 <= k < pool.len() && r.0 == pool[k].utype && after.of(r.0)[r.1 as int].id@
                == pool[k].id@);
        },
    }
}

/// Growing lists at their ends twice grows them at their ends.
proof fn lemma_lists_extended_trans(a: UnitsByKind, b: UnitsByKind, c: UnitsByKind)
    requires
        lists_extended(a, b),
        lists_extended(b, c),
    ensures
        lists_extended(a, c),
{
    assert forall|t: UnitType| (#[trigger] a.of(t)).is_prefix_of(c.of(t)) by {
        assert(a.of(t).is_prefix_of(b.of(t)));
        assert(b.of(t).is_prefix_of(c.of(t)));
        assert(a.of(t) =~= b.of(t).subrange(0, a.of(t).len() as int));
        assert(b.of(t) =~= c.of(t).subrange(0, b.of(t).len() as int));
        assert(a.of(t) =~= c.of(t).subrange(0, a.of(t).len() as int));
    }
}

/// Resolve each option of a list in order and place every resolved unit at
/// the end of its kind's list, handing back the `(kind, ordinal)` pair of
/// each placement; an option that resolves to nothing contributes none.
fn insert_units(
    unit_db: &UnitDb,
    general: &GeneralOptions,
    units: &mut UnitsByKind,
    unit_opts: &Vec<UnitOption>,
) -> (refs: Vec<(UnitType, usize)>)
    ensures
        lists_extended(*old(units), *final(units)),
        forall|t: UnitType, i: int|
            old(units).of(t).len() <= i < final(units).of(t).len() ==> spawned_from(
                *unit_db,
                t,
                #[trigger] final(units).of(t)[i],
            ),
        forall|j: int|
            0 <= j < refs@.len() ==> old(units).of((#[trigger] refs@[j]).0).len() <= refs@[j].1
                < final(units).of(refs@[j].0).len(),
        refs@.no_duplicates(),
        refs@.len() == resolving_count(*unit_db, unit_opts@),
        total_units(*final(units)) == total_units(*old(units)) + refs@.len(),
        refs_kind_ascending(refs@),
        placements_match(*unit_db, unit_opts@, refs@, *final(units)),
        forall|t: UnitType, i: int|
            old(units).of(t).len() <= i < final(units).of(t).len() ==> offset_in_box(
                *general,
                #[trigger] final(units).of(t)[i],
            ),
{
    let mut refs: Vec<(UnitType, usize)> = Vec::new();
    let mut oi: usize = 0;
    let len = unit_opts.len();
    proof {
        assert(unit_opts@.take(0) =~= Seq::<UnitOption>::empty());
    }
    while oi < len
        invariant
            oi <= len,
            len == unit_opts@.len(),
            refs@.len() == resolving_count(*unit_db, unit_opts@.take(oi as int)),
            total_units(*units) == total_units(*old(units)) + refs@.len(),
            lists_extended(*old(units), *units),
            forall|t: UnitType, i: int|
                old(units).of(t).len() <= i < units.of(t).len() ==> spawned_from(
                    *unit_db,
                    t,
                    #[trigger] units.of(t)[i],
                ),
            forall|j: int|
                0 <= j < refs@.len() ==> old(units).of((#[trigger] refs@[j]).0).len() <= refs@[j].1
                    < units.of(refs@[j].0).len(),
            refs@.no_duplicates(),
            refs_kind_ascending(refs@),
            forall|i: int|
                0 <= i < oi && option_resolves(*unit_db, #[trigger] unit_opts@[i])
                    ==> resolving_count(*unit_db, unit_opts@.take(i)) < refs@.len()
                    && placement_matches(
                    *unit_db,
                    unit_opts@[i],
                    refs@[resolving_count(*unit_db, unit_opts@.take(i)) as int],
                    *units,
                ),
            forall|t: UnitType, i: int|
                old(units).of(t).len() <= i < units.of(t).len() ==> offset_in_box(
                    *general,
                    #[trigger] units.of(t)[i],
                ),
        decreases len - oi,
    {
        let option = &unit_opts[oi];
        proof {
            assert(unit_opts@.take(oi + 1).drop_last() =~= unit_opts@.take(oi as int));
            assert(unit_opts@.take(oi + 1).last() == unit_opts@[oi as int]);
        }
        match resolve(option, unit_db) {
            Some(db_unit) => {
                proof {
                    match option@ {
                        UnitOptionV::Unit(id) => {
                            crate::unit_db::lemma_find_unit_contained(unit_db.units@, id);
                        },
                        UnitOptionV::Random { nation, utype } => {
                            crate::strutil::lemma_filter_subset(
                                unit_db.units@,
                                |u: unit_db::Unit| unit_matches(u, nation, utype),
                                db_unit,
                            );
                        },
                    }
                }
                let ghost before = *units;
                let ghost refs_before = refs@;
                let t = db_unit.utype;
                let ordinal = units.len_of(t);
                let placed = Unit::new(general, db_unit.id.as_str());
                units.push_unit(t, placed);
                refs.push((t, ordinal));
                proof {
                    assert(units.of(t).last().id@ == db_unit.id@);
                    assert(unit_db.units@.contains(db_unit));
                    assert(spawned_from(*unit_db, t, units.of(t).last()));
                    assert forall|s: UnitType, i: int|
                        old(units).of(s).len() <= i < units.of(s).len() implies spawned_from(
                        *unit_db,
                        s,
                        #[trigger] units.of(s)[i],
                    ) by {
                        if s == t && i == units.of(t).len() - 1 {
                        } else {
                            assert(units.of(s)[i] == before.of(s)[i]);
                        }
                    }
                    assert forall|j: int| 0 <= j < refs@.len() - 1 implies refs@[j] != (
                    t,
                    ordinal,
                    ) by {
                        assert(refs@[j] == refs_before[j]);
                        if refs_before[j].0 == t {
                            assert(refs_before[j].1 < before.of(t).len());
                        }
                    }
                    assert(option_resolves(*unit_db, unit_opts@[oi as int]));
                    assert forall|s: UnitType, i: int|
                        old(units).of(s).len() <= i < units.of(s).len() implies offset_in_box(
                        *general,
                        #[trigger] units.of(s)[i],
                    ) by {
                        if s == t && i == units.of(t).len() - 1 {
                            assert(units.of(t).last() == placed);
                        } else {
                            assert(units.of(s)[i] == before.of(s)[i]);
                        }
                    }
                    assert forall|j1: int, j2: int|
                        #![trigger refs@[j1], refs@[j2]]
                        0 <= j1 < j2 < refs@.len() && refs@[j1].0 == refs@[j2].0 implies refs@[j1].1
                        < refs@[j2].1 by {
                        if j2 == refs@.len() - 1 {
                            assert(refs@[j1] == refs_before[j1]);
                            assert(refs_before[j1].1 < before.of(t).len());
                        } else {
                            assert(refs@[j1] == refs_before[j1]);
                            assert(refs@[j2] == refs_before[j2]);
                        }
                    }
                    let ghost jnew = resolving_count(*unit_db, unit_opts@.take(oi as int)) as int;
                    assert(jnew == refs_before.len());
                    assert(refs@[jnew] == (t, ordinal));
                    assert(placement_matches(*unit_db, unit_opts@[oi as int], refs@[jnew], *units))
                        by {
                        assert(unit_opts@[oi as int] == *option);
                        assert(units.of(t)[ordinal as int] == units.of(t).last());
                        match option@ {
                            UnitOptionV::Unit(id) => {
                                assert(find_unit(unit_db.units@, id) == Some(db_unit));
                                assert(db_unit.id@ == id);
                            },
                            UnitOptionV::Random { nation, utype } => {
                                let pool = random_pool(*unit_db, nation, utype);
                                assert(pool.contains(db_unit));
                                let k = choose|k: int| 0 <= k < pool.len() && pool[k] == db_unit;
                                assert(pool[k].utype == t);
                                assert(units.of(t)[ordinal as int].id@ == pool[k].id@);
                            },
                        }
                    }
                    assert forall|i: int|
                        0 <= i < oi + 1 && option_resolves(*unit_db, #[trigger] unit_opts@[i])
                            implies resolving_count(*unit_db, unit_opts@.take(i)) < refs@.len()
                        && placement_matches(
                        *unit_db,
                        unit_opts@[i],
                        refs@[resolving_count(*unit_db, unit_opts@.take(i)) as int],
                        *units,
                    ) by {
                        if i < oi {
                            let ji = resolving_count(*unit_db, unit_opts@.take(i)) as int;
                            assert(ji < refs_before.len());
                            assert(refs@[ji] == refs_before[ji]);
                            assert(placement_matches(
                                *unit_db,
                                unit_opts@[i],
                                refs_before[ji],
                                before,
                            ));
                            lemma_placement_stable(
                                *unit_db,
                                unit_opts@[i],
                                refs_before[ji],
                                before,
                                *units,
                            );
                        }
                    }
                    assert(total_units(*units) == total_units(before) + 1) by {
                        if t != UnitType::Ship {
                            assert(units.of(UnitType::Ship) == before.of(UnitType::Ship));
                        }
                        if t != UnitType::Submarine {
                            assert(units.of(UnitType::Submarine) == before.of(
                                UnitType::Submarine,
                            ));
                        }
                        if t != UnitType::Helicopter {
                            assert(units.of(UnitType::Helicopter) == before.of(
                                UnitType::Helicopter,
                            ));
                        }
                        if t != UnitType::FixedWing {
                            assert(units.of(UnitType::FixedWing) == before.of(
                                UnitType::FixedWing,
                            ));
                        }
                    }
                }
            },
            None => {
                proof {
                    assert(!option_resolves(*unit_db, unit_opts@[oi as int]));
                }
            },
        }
        oi = oi + 1;
    }
    proof {
        assert(unit_opts@.take(len as int) =~= unit_opts@);
    }
    refs
}

/// The views of a taskforce's formation reference lists, in order.
pub open spec fn formation_views(fs: Seq<Vec<(UnitType, usize)>>) -> Seq<Seq<(UnitType, usize)>> {
    fs.map_values(|f: Vec<(UnitType, usize)>| f@)
}

/// One assembled side of the engagement: resolved units addressed by
/// per-kind ordinal, and formations referencing those ordinals.  The
/// ghost `loose_refs` records where each loose option's unit was placed,
/// as the formation lists do for their members.
pub struct Taskforce {
    pub options: TaskforceOptions,
    pub name: String,
    pub units: UnitsByKind,
    pub formations: Vec<Vec<(UnitType, usize)>>,
    pub loose_refs: Ghost<Seq<(UnitType, usize)>>,
}

impl Taskforce {
    /// Every formation reference indexes its kind's list.
    pub open spec fn refs_valid(self) -> bool {
        forall|f: int, j: int|
            0 <= f < self.formations@.len() && 0 <= j < self.formations@[f]@.len()
                ==> (#[trigger] self.formations@[f]@[j]).1 < self.units.of(
                self.formations@[f]@[j].0,
            ).len()
    }

    /// No (kind, ordinal) pair is referenced twice, within or across
    /// formations.
    pub open spec fn refs_distinct(self) -> bool {
        forall|f1: int, j1: int, f2: int, j2: int|
            #![trigger self.formations@[f1]@[j1], self.formations@[f2]@[j2]]
            0 <= f1 < self.formations@.len() && 0 <= j1 < self.formations@[f1]@.len() && 0 <= f2
                < self.formations@.len() && 0 <= j2 < self.formations@[f2]@.len() && (f1 != f2 || j1
                != j2) ==> self.formations@[f1]@[j1] != self.formations@[f2]@[j2]
    }

    /// The assembled taskforce's invariant.
    pub open spec fn wf(self) -> bool {
        self.refs_valid() && self.refs_distinct()
    }

    /// Every placed unit stands for a catalog entry of its list's kind.
    pub open spec fn spawned_ok(self, db: UnitDb) -> bool {
        forall|t: UnitType, i: int|
            0 <= i < self.units.of(t).len() ==> spawned_from(
                db,
                t,
                #[trigger] self.units.of(t)[i],
            )
    }

    /// Every placed unit's offset lies within the given box.
    pub open spec fn offsets_ok(self, general: GeneralOptions) -> bool {
        forall|t: UnitType, i: int|
            0 <= i < self.units.of(t).len() ==> offset_in_box(
                general,
                #[trigger] self.units.of(t)[i],
            )
    }

    /// Assemble a taskforce: resolve the loose options, then each
    /// formation's options, placing every resolved unit at the next ordinal
    /// of its kind; a formation keeps its place even when every member
    /// fails to resolve.
    pub fn new(
        unit_db: &UnitDb,
        general: &GeneralOptions,
        name: &str,
        options: TaskforceOptions,
    ) -> (r: Taskforce)
        ensures
            r.name@ == name@,
            assembled_from(r, *unit_db, *general, options),
    {
        let mut units = UnitsByKind::new();
        proof {
            assert(total_units(units) == 0);
        }
        let loose = insert_units(unit_db, general, &mut units, &options.units);
        let ghost loose_seq = loose@;
        let ghost base = units;
        let mut formations: Vec<Vec<(UnitType, usize)>> = Vec::new();
        let mut fi: usize = 0;
        let flen = options.formations.len();
        proof {
            assert(options.formations@.take(0) =~= Seq::<FormationOption>::empty());
            assert(lists_extended(base, units));
        }
        while fi < flen
            invariant
                fi <= flen,
                flen == options.formations@.len(),
                formations@.len() == fi,
                lists_extended(base, units),
                loose_seq.len() == resolving_count(*unit_db, options.units@),
                loose_seq.no_duplicates(),
                refs_kind_ascending(loose_seq),
                forall|j: int|
                    0 <= j < loose_seq.len() ==> (#[trigger] loose_seq[j]).1 < base.of(
                        loose_seq[j].0,
                    ).len(),
                forall|i: int|
                    0 <= i < options.units@.len() && option_resolves(
                        *unit_db,
                        #[trigger] options.units@[i],
                    ) ==> resolving_count(*unit_db, options.units@.take(i)) < loose_seq.len()
                        && placement_matches(
                        *unit_db,
                        options.units@[i],
                        loose_seq[resolving_count(*unit_db, options.units@.take(i)) as int],
                        units,
                    ),
                forall|f: int|
                    0 <= f < fi ==> (#[trigger] formations@[f])@.len() == resolving_count(
                        *unit_db,
                        options.formations@[f].units@,
                    ),
                forall|f: int|
                    0 <= f < fi ==> refs_kind_ascending((#[trigger] formations@[f])@),
                forall|f: int, m: int|
                    #![trigger options.formations@[f].units@[m]]
                    0 <= f < fi && 0 <= m < options.formations@[f].units@.len()
                        && option_resolves(*unit_db, options.formations@[f].units@[m])
                        ==> resolving_count(*unit_db, options.formations@[f].units@.take(m))
                        < formations@[f]@.len() && placement_matches(
                        *unit_db,
                        options.formations@[f].units@[m],
                        formations@[f]@[resolving_count(
                            *unit_db,
                            options.formations@[f].units@.take(m),
                        ) as int],
                        units,
                    ),
                forall|f: int, j: int|
                    0 <= f < formations@.len() && 0 <= j < formations@[f]@.len() ==> base.of(
                        (#[trigger] formations@[f]@[j]).0,
                    ).len() <= formations@[f]@[j].1,
                total_units(units) == resolving_count(*unit_db, options.units@)
                    + formations_resolving_count(
                    *unit_db,
                    options.formations@.take(fi as int),
                ),
                forall|t: UnitType, i: int|
                    0 <= i < units.of(t).len() ==> spawned_from(
                        *unit_db,
                        t,
                        #[trigger] units.of(t)[i],
                    ),
                forall|t: UnitType, i: int|
                    0 <= i < units.of(t).len() ==> offset_in_box(
                        *general,
                        #[trigger] units.of(t)[i],
                    ),
                forall|f: int, j: int|
                    0 <= f < formations@.len() && 0 <= j < formations@[f]@.len()
                        ==> (#[trigger] formations@[f]@[j]).1 < units.of(
                        formations@[f]@[j].0,
                    ).len(),
                forall|f1: int, j1: int, f2: int, j2: int|
                    #![trigger formations@[f1]@[j1], formations@[f2]@[j2]]
                    0 <= f1 < formations@.len() && 0 <= j1 < formations@[f1]@.len() && 0 <= f2
                        < formations@.len() && 0 <= j2 < formations@[f2]@.len() && (f1 != f2 || j1
                        != j2) ==> formations@[f1]@[j1] != formations@[f2]@[j2],
            decreases flen - fi,
        {
            let ghost units_before = units;
            let ghost formations_before = formations@;
            let refs = insert_units(unit_db, general, &mut units, &options.formations[fi].units);
            formations.push(refs);
            proof {
                assert(options.formations@.take(fi + 1).drop_last() =~= options.formations@.take(
                    fi as int,
                ));
                assert(options.formations@.take(fi + 1).last() == options.formations@[fi as int]);
                lemma_lists_extended_trans(base, units_before, units);
                assert forall|t: UnitType, i: int|
                    0 <= i < units.of(t).len() implies spawned_from(
                    *unit_db,
                    t,
                    #[trigger] units.of(t)[i],
                ) by {
                    assert(units_before.of(t).is_prefix_of(units.of(t)));
                    if i < units_before.of(t).len() {
                        assert(units_before.of(t) =~= units.of(t).subrange(
                            0,
                            units_before.of(t).len() as int,
                        ));
                        assert(units.of(t)[i] == units_before.of(t)[i]);
                        assert(spawned_from(*unit_db, t, units_before.of(t)[i]));
                    }
                }
                assert forall|t: UnitType, i: int|
                    0 <= i < units.of(t).len() implies offset_in_box(
                    *general,
                    #[trigger] units.of(t)[i],
                ) by {
                    assert(units_before.of(t).is_prefix_of(units.of(t)));
                    if i < units_before.of(t).len() {
                        assert(units_before.of(t) =~= units.of(t).subrange(
                            0,
                            units_before.of(t).len() as int,
                        ));
                        assert(units.of(t)[i] == units_before.of(t)[i]);
                        assert(offset_in_box(*general, units_before.of(t)[i]));
                    }
                }
                assert forall|i: int|
                    0 <= i < options.units@.len() && option_resolves(
                        *unit_db,
                        #[trigger] options.units@[i],
                    ) implies resolving_count(*unit_db, options.units@.take(i)) < loose_seq.len()
                    && placement_matches(
                    *unit_db,
                    options.units@[i],
                    loose_seq[resolving_count(*unit_db, options.units@.take(i)) as int],
                    units,
                ) by {
                    let ji = resolving_count(*unit_db, options.units@.take(i)) as int;
                    assert(placement_matches(
                        *unit_db,
                        options.units@[i],
                        loose_seq[ji],
                        units_before,
                    ));
                    lemma_placement_stable(
                        *unit_db,
                        options.units@[i],
                        loose_seq[ji],
                        units_before,
                        units,
                    );
                }
                let fv = formations@;
                let last = fv.len() - 1;
                assert forall|f: int, m: int|
                    #![trigger options.formations@[f].units@[m]]
                    0 <= f < fi + 1 && 0 <= m < options.formations@[f].units@.len()
                        && option_resolves(*unit_db, options.formations@[f].units@[m]) implies
                    resolving_count(*unit_db, options.formations@[f].units@.take(m))
                    < fv[f]@.len() && placement_matches(
                    *unit_db,
                    options.formations@[f].units@[m],
                    fv[f]@[resolving_count(
                        *unit_db,
                        options.formations@[f].units@.take(m),
                    ) as int],
                    units,
                ) by {
                    let jm = resolving_count(
                        *unit_db,
                        options.formations@[f].units@.take(m),
                    ) as int;
                    if f < fi {
                        assert(fv[f] == formations_before[f]);
                        assert(placement_matches(
                            *unit_db,
                            options.formations@[f].units@[m],
                            formations_before[f]@[jm],
                            units_before,
                        ));
                        lemma_placement_stable(
                            *unit_db,
                            options.formations@[f].units@[m],
                            formations_before[f]@[jm],
                            units_before,
                            units,
                        );
                    } else {
                        assert(fv[f]@ == refs@);
                        assert(placements_match(
                            *unit_db,
                            options.formations@[fi as int].units@,
                            refs@,
                            units,
                        ));
                    }
                }
                assert forall|f: int|
                    0 <= f < fi + 1 implies refs_kind_ascending((#[trigger] fv[f])@) by {
                    if f < fi {
                        assert(fv[f] == formations_before[f]);
                    } else {
                        assert(fv[f]@ == refs@);
                    }
                }
                assert forall|f: int, j: int|
                    0 <= f < fv.len() && 0 <= j < fv[f]@.len() implies base.of(
                    (#[trigger] fv[f]@[j]).0,
                ).len() <= fv[f]@[j].1 by {
                    if f < last {
                        assert(fv[f] == formations_before[f]);
                    } else {
                        assert(fv[f]@ == refs@);
                        assert(units_before.of(refs@[j].0).len() <= refs@[j].1);
                        assert(base.of(refs@[j].0).is_prefix_of(units_before.of(refs@[j].0)));
                    }
                }
                assert forall|f: int, j: int|
                    0 <= f < fv.len() && 0 <= j < fv[f]@.len() implies (#[trigger] fv[f]@[j]).1
                    < units.of(fv[f]@[j].0).len() by {
                    if f < last {
                        assert(fv[f] == formations_before[f]);
                        assert(formations_before[f]@[j].1 < units_before.of(
                            formations_before[f]@[j].0,
                        ).len());
                        assert(units_before.of(fv[f]@[j].0).is_prefix_of(
                            units.of(fv[f]@[j].0),
                        ));
                    } else {
                        assert(fv[f]@ == refs@);
                    }
                }
                assert forall|f1: int, j1: int, f2: int, j2: int|
                    #![trigger fv[f1]@[j1], fv[f2]@[j2]]
                    0 <= f1 < fv.len() && 0 <= j1 < fv[f1]@.len() && 0 <= f2 < fv.len() && 0 <= j2
                        < fv[f2]@.len() && (f1 != f2 || j1 != j2) implies fv[f1]@[j1]
                    != fv[f2]@[j2] by {
                    if f1 < last && f2 < last {
                        assert(fv[f1] == formations_before[f1]);
                        assert(fv[f2] == formations_before[f2]);
                        assert(formations_before[f1]@[j1] != formations_before[f2]@[j2]);
                    } else if f1 == last && f2 == last {
                        assert(fv[f1]@ == refs@);
                        assert(refs@[j1] != refs@[j2]);
                    } else if f1 == last {
                        assert(fv[f1]@ == refs@);
                        assert(fv[f2] == formations_before[f2]);
                        let a = refs@[j1];
                        let b = formations_before[f2]@[j2];
                        if a.0 == b.0 {
                            assert(b.1 < units_before.of(b.0).len());
                            assert(units_before.of(a.0).len() <= a.1);
                        }
                    } else {
                        assert(fv[f2]@ == refs@);
                        assert(fv[f1] == formations_before[f1]);
                        let a = refs@[j2];
                        let b = formations_before[f1]@[j1];
                        if a.0 == b.0 {
                            assert(b.1 < units_before.of(b.0).len());
                            assert(units_before.of(a.0).len() <= a.1);
                        }
                    }
                }
            }
            fi = fi + 1;
        }
        proof {
            assert(options.formations@.take(flen as int) =~= options.formations@);
        }
        let tf = Taskforce {
            options,
            name: name.to_owned(),
            units,
            formations,
            loose_refs: Ghost(loose_seq),
        };
        proof {
            assert forall|j: int, f: int, j2: int|
                #![trigger tf.loose_refs@[j], tf.formations@[f]@[j2]]
                0 <= j < tf.loose_refs@.len() && 0 <= f < tf.formations@.len() && 0 <= j2
                    < tf.formations@[f]@.len() implies tf.loose_refs@[j]
                != tf.formations@[f]@[j2] by {
                let a = tf.loose_refs@[j];
                let b = tf.formations@[f]@[j2];
                if a.0 == b.0 {
                    assert(a.1 < base.of(a.0).len());
                    assert(base.of(b.0).len() <= b.1);
                }
            }
            assert forall|j: int|
                0 <= j < tf.loose_refs@.len() implies (#[trigger] tf.loose_refs@[j]).1
                < tf.units.of(tf.loose_refs@[j].0).len() by {
                assert(tf.loose_refs@[j].1 < base.of(tf.loose_refs@[j].0).len());
                assert(base.of(tf.loose_refs@[j].0).is_prefix_of(
                    tf.units.of(tf.loose_refs@[j].0),
                ));
            }
            assert(assembled_from(tf, *unit_db, *general, options));
        }
        tf
    }
}

/// Everything assembly promises of one side, relative to the catalog, the
/// mission-wide settings, and the side's declarative options: the options
/// kept; one well-formed formation reference list per requested formation;
/// every placed unit a catalog entry of its list's kind with a legal
/// heading and an offset within the box; exactly one placement per
/// resolving option, each option answered — in option order — by the
/// reference at its resolving rank, in the ghost `loose_refs` for loose
/// options and in the formation lists for members; and no placement shared
/// between any two references.
pub open spec fn assembled_from(
    r: Taskforce,
    db: UnitDb,
    general: GeneralOptions,
    options: TaskforceOptions,
) -> bool {
    &&& r.options == options
    &&& r.formations@.len() == options.formations@.len()
    &&& r.wf()
    &&& r.spawned_ok(db)
    &&& r.offsets_ok(general)
    &&& total_units(r.units) == resolving_count(db, options.units@) + formations_resolving_count(
        db,
        options.formations@,
    )
    &&& r.loose_refs@.len() == resolving_count(db, options.units@)
    &&& r.loose_refs@.no_duplicates()
    &&& refs_kind_ascending(r.loose_refs@)
    &&& forall|j: int|
        0 <= j < r.loose_refs@.len() ==> (#[trigger] r.loose_refs@[j]).1 < r.units.of(
            r.loose_refs@[j].0,
        ).len()
    &&& placements_match(db, options.units@, r.loose_refs@, r.units)
    &&& forall|f: int|
        0 <= f < r.formations@.len() ==> (#[trigger] r.formations@[f])@.len() == resolving_count(
            db,
            options.formations@[f].units@,
        )
    &&& forall|f: int|
        0 <= f < r.formations@.len() ==> refs_kind_ascending((#[trigger] r.formations@[f])@)
    &&& forall|f: int, m: int|
        #![trigger options.formations@[f].units@[m]]
        0 <= f < r.formations@.len() && 0 <= m < options.formations@[f].units@.len()
            && option_resolves(db, options.formations@[f].units@[m]) ==> resolving_count(
            db,
            options.formations@[f].units@.take(m),
        ) < r.formations@[f]@.len() && placement_matches(
            db,
            options.formations@[f].units@[m],
            r.formations@[f]@[resolving_count(db, options.formations@[f].units@.take(m)) as int],
            r.units,
        )
    &&& forall|j: int, f: int, j2: int|
        #![trigger r.loose_refs@[j], r.formations@[f]@[j2]]
        0 <= j < r.loose_refs@.len() && 0 <= f < r.formations@.len() && 0 <= j2
            < r.formations@[f]@.len() ==> r.loose_refs@[j] != r.formations@[f]@[j2]
}

/// The views of a list of pending key assignments, in order.
pub open spec fn entry_views(es: Seq<(String, String, String)>) -> Seq<
    (Seq<char>, Seq<char>, Seq<char>),
> {
    es.map_values(|e: (String, String, String)| (e.0@, e.1@, e.2@))
}

/// A document after a list of assignments is stored in order; a later
/// assignment to the same key wins.
pub open spec fn apply_entries(
    doc: Map<Seq<char>, Map<Seq<char>, Option<Seq<char>>>>,
    es: Seq<(Seq<char>, Seq<char>, Seq<char>)>,
) -> Map<Seq<char>, Map<Seq<char>, Option<Seq<char>>>>
    decreases es.len(),
{
    if es.len() == 0 {
        doc
    } else {
        apply_entries(doc_set(doc, es[0].0, es[0].1, Some(es[0].2)), es.drop_first())
    }
}

/// Applying one more assignment stores it in the document so far.
pub proof fn lemma_apply_entries_snoc(
    doc: Map<Seq<char>, Map<Seq<char>, Option<Seq<char>>>>,
    es: Seq<(Seq<char>, Seq<char>, Seq<char>)>,
    e: (Seq<char>, Seq<char>, Seq<char>),
)
    ensures
        apply_entries(doc, es.push(e)) == doc_set(apply_entries(doc, es), e.0, e.1, Some(e.2)),
    decreases es.len(),
{
    if es.len() == 0 {
        assert(es.push(e)[0] == e);
        assert(es.push(e).drop_first() =~= Seq::<(Seq<char>, Seq<char>, Seq<char>)>::empty());
        assert(apply_entries(doc, es.push(e)) == apply_entries(
            doc_set(doc, e.0, e.1, Some(e.2)),
            es.push(e).drop_first(),
        ));
        assert(apply_entries(doc_set(doc, e.0, e.1, Some(e.2)), es.push(e).drop_first())
            == doc_set(doc, e.0, e.1, Some(e.2)));
        assert(apply_entries(doc, es) == doc);
    } else {
        assert(es.push(e)[0] == es[0]);
        assert(es.push(e).drop_first() =~= es.drop_first().push(e));
        lemma_apply_entries_snoc(doc_set(doc, es[0].0, es[0].1, Some(es[0].2)), es.drop_first(), e);
        assert(apply_entries(doc, es.push(e)) == apply_entries(
            doc_set(doc, es[0].0, es[0].1, Some(es[0].2)),
            es.drop_first().push(e),
        ));
        assert(apply_entries(doc, es) == apply_entries(
            doc_set(doc, es[0].0, es[0].1, Some(es[0].2)),
            es.drop_first(),
        ));
    }
}

/// Applying a concatenation applies the first part, then the second.
pub proof fn lemma_apply_entries_concat(
    doc: Map<Seq<char>, Map<Seq<char>, Option<Seq<char>>>>,
    a: Seq<(Seq<char>, Seq<char>, Seq<char>)>,
    b: Seq<(Seq<char>, Seq<char>, Seq<char>)>,
)
    ensures
        apply_entries(doc, a + b) == apply_entries(apply_entries(doc, a), b),
    decreases a.len(),
{
    if a.len() == 0 {
        assert(a + b =~= b);
    } else {
        assert((a + b)[0] == a[0]);
        assert((a + b).drop_first() =~= a.drop_first() + b);
        lemma_apply_entries_concat(doc_set(doc, a[0].0, a[0].1, Some(a[0].2)), a.drop_first(), b);
    }
}

/// Store a list of assignments in a document, in order.
fn apply_to_ini(config: &mut configparser::ini::Ini, entries: &Vec<(String, String, String)>)
    requires
        ini_opts(*old(config)) == Some(true),
    ensures
        ini_opts(*final(config)) == ini_opts(*old(config)),
        ini_doc(*final(config)) == apply_entries(ini_doc(*old(config)), entry_views(entries@)),
{
    let mut i: usize = 0;
    let len = entries.len();
    proof {
        assert(entry_views(entries@).take(0) =~= Seq::<(Seq<char>, Seq<char>, Seq<char>)>::empty());
    }
    while i < len
        invariant
            i <= len,
            len == entries@.len(),
            ini_opts(*config) == Some(true),
            ini_opts(*config) == ini_opts(*old(config)),
            ini_doc(*config) == apply_entries(
                ini_doc(*old(config)),
                entry_views(entries@).take(i as int),
            ),
        decreases len - i,
    {
        let e = &entries[i];
        ini_set(config, e.0.as_str(), e.1.as_str(), e.2.as_str());
        proof {
            lemma_apply_entries_snoc(
                ini_doc(*old(config)),
                entry_views(entries@).take(i as int),
                entry_views(entries@)[i as int],
            );
            assert(entry_views(entries@).take(i + 1) =~= entry_views(entries@).take(
                i as int,
            ).push(entry_views(entries@)[i as int]));
        }
        i = i + 1;
    }
    proof {
        assert(entry_views(entries@).take(len as int) =~= entry_views(entries@));
    }
}

/// The name of the section holding a unit: taskforce, singular kind label,
/// and the unit's 1-based ordinal.
pub open spec fn sec_name(tf: Seq<char>, t: UnitType, ord1: nat) -> Seq<char> {
    tf + singular_spec(t) + dec_spec(ord1)
}

/// The count key of a kind within a taskforce.
pub open spec fn count_key(tf: Seq<char>, t: UnitType) -> Seq<char> {
    "NumberOf"@ + tf + plural_spec(t)
}

/// Build a unit's section name.
fn sec_name_exec(tf: &str, t: UnitType, ord1: usize) -> (r: String)
    ensures
        r@ == sec_name(tf@, t, ord1 as nat),
{
    let mut s = tf.to_owned();
    s.append(t.capitalised_singular().as_str());
    s.append(usize_to_string(ord1).as_str());
    proof {
        assert(s@ =~= sec_name(tf@, t, ord1 as nat));
    }
    s
}

/// Build a kind's count key.
fn count_key_exec(tf: &str, t: UnitType) -> (r: String)
    ensures
        r@ == count_key(tf@, t),
{
    let mut s = "NumberOf".to_owned();
    s.append(tf);
    s.append(t.calitalised_plural().as_str());
    proof {
        assert(s@ =~= count_key(tf@, t));
    }
    s
}

/// The six keys a placed unit's own section holds, before the taskforce
/// adds the weapon posture.
pub open spec fn unit_base_entries(sec: Seq<char>, u: SpawnV) -> Seq<
    (Seq<char>, Seq<char>, Seq<char>),
> {
    seq![
        (sec, "Type"@, u.id),
        (sec, "Telegraph"@, "3"@),
        (sec, "CrewSkill"@, "Trained"@),
        (sec, "Stores"@, "Full"@),
        (sec, "Heading"@, dec_spec(u.heading as nat)),
        (sec, "RelativePositionInNM"@, u.position.0 + ",0,"@ + u.position.1),
    ]
}

/// A unit's full section: the base keys and the taskforce's weapon posture.
pub open spec fn unit_entries(sec: Seq<char>, u: SpawnV, w: WeaponState) -> Seq<
    (Seq<char>, Seq<char>, Seq<char>),
> {
    unit_base_entries(sec, u).push((sec, "WeaponStatus"@, weapon_state_str(w)))
}

/// The sections of a kind's units, one after the other, ordinals 1-based.
pub open spec fn kind_unit_entries(
    tf: Seq<char>,
    t: UnitType,
    us: Seq<Unit>,
    w: WeaponState,
) -> Seq<(Seq<char>, Seq<char>, Seq<char>)>
    decreases us.len(),
{
    if us.len() == 0 {
        Seq::empty()
    } else {
        kind_unit_entries(tf, t, us.drop_last(), w) + unit_entries(
            sec_name(tf, t, us.len() as nat),
            us.last()@,
            w,
        )
    }
}

/// Everything serialization stores for one kind: nothing when the kind has
/// no units, else its count key followed by every unit's section.
pub open spec fn kind_entries(tf: Seq<char>, t: UnitType, us: Seq<Unit>, w: WeaponState) -> Seq<
    (Seq<char>, Seq<char>, Seq<char>),
> {
    if us.len() == 0 {
        Seq::empty()
    } else {
        seq![("Mission"@, count_key(tf, t), dec_spec(us.len() as nat))] + kind_unit_entries(
            tf,
            t,
            us,
            w,
        )
    }
}

/// The comma-joined member section names of a formation, in assembly order.
pub open spec fn join_refs(tf: Seq<char>, refs: Seq<(UnitType, usize)>) -> Seq<char>
    decreases refs.len(),
{
    if refs.len() == 0 {
        Seq::empty()
    } else if refs.len() == 1 {
        sec_name(tf, refs[0].0, (refs[0].1 + 1) as nat)
    } else {
        sec_name(tf, refs[0].0, (refs[0].1 + 1) as nat) + ","@ + join_refs(tf, refs.drop_first())
    }
}

/// The fixed placement metadata appended to every formation descriptor.
pub open spec fn formation_suffix() -> Seq<char> {
    "|Unnamed Group|Circle|7.5|OverrideSpawnPositions"@
}

/// A formation's packed descriptor: the member section names and the fixed
/// placement metadata.
pub open spec fn formation_value(tf: Seq<char>, refs: Seq<(UnitType, usize)>) -> Seq<char> {
    join_refs(tf, refs) + formation_suffix()
}

/// One more member extends the joined names, after a comma unless it is
/// the first.
pub proof fn lemma_join_refs_snoc(tf: Seq<char>, refs: Seq<(UnitType, usize)>, r: (UnitType, usize))
    ensures
        refs.len() == 0 ==> join_refs(tf, refs.push(r)) == sec_name(tf, r.0, (r.1 + 1) as nat),
        refs.len() > 0 ==> join_refs(tf, refs.push(r)) == join_refs(tf, refs) + ","@ + sec_name(
            tf,
            r.0,
            (r.1 + 1) as nat,
        ),
    decreases refs.len(),
{
    if refs.len() == 0 {
        assert(refs.push(r)[0] == r);
    } else {
        assert(refs.push(r)[0] == refs[0]);
        assert(refs.push(r).drop_first() =~= refs.drop_first().push(r));
        lemma_join_refs_snoc(tf, refs.drop_first(), r);
        if refs.len() == 1 {
            assert(join_refs(tf, refs.push(r)) =~= join_refs(tf, refs) + ","@ + sec_name(
                tf,
                r.0,
                (r.1 + 1) as nat,
            ));
        } else {
            assert(join_refs(tf, refs.push(r)) =~= join_refs(tf, refs) + ","@ + sec_name(
                tf,
                r.0,
                (r.1 + 1) as nat,
            ));
        }
    }
}

/// Build a formation's packed descriptor string.
pub fn formation_str(taskforce: &str, formation: &Vec<(UnitType, usize)>) -> (r: String)
    requires
        forall|j: int| 0 <= j < formation@.len() ==> (#[trigger] formation@[j]).1 < usize::MAX,
    ensures
        r@ == formation_value(taskforce@, formation@),
{
    let mut acc = String::new();
    let mut j: usize = 0;
    let len = formation.len();
    proof {
        assert(formation@.take(0) =~= Seq::<(UnitType, usize)>::empty());
    }
    while j < len
        invariant
            j <= len,
            len == formation@.len(),
            forall|k: int| 0 <= k < formation@.len() ==> (#[trigger] formation@[k]).1 < usize::MAX,
            acc@ == join_refs(taskforce@, formation@.take(j as int)),
        decreases len - j,
    {
        proof {
            lemma_join_refs_snoc(taskforce@, formation@.take(j as int), formation@[j as int]);
            assert(formation@.take(j + 1) =~= formation@.take(j as int).push(
                formation@[j as int],
            ));
        }
        if j > 0 {
            acc.append(",");
        }
        let (t, ordinal) = formation[j];
        acc.append(sec_name_exec(taskforce, t, ordinal + 1).as_str());
        j = j + 1;
    }
    proof {
        assert(formation@.take(len as int) =~= formation@);
    }
    acc.append("|Unnamed Group|Circle|7.5|OverrideSpawnPositions");
    acc
}

/// The formation keys of a taskforce, one per formation, 1-based.
pub open spec fn formation_entries(tf: Seq<char>, fs: Seq<Seq<(UnitType, usize)>>) -> Seq<
    (Seq<char>, Seq<char>, Seq<char>),
>
    decreases fs.len(),
{
    if fs.len() == 0 {
        Seq::empty()
    } else {
        formation_entries(tf, fs.drop_last()).push(
            (
                "Mission"@,
                tf + "_Formation"@ + dec_spec(fs.len() as nat),
                formation_value(tf, fs.last()),
            ),
        )
    }
}

/// Everything one taskforce's serialization stores, in order: each kind's
/// count and unit sections, then the formation count and each formation's
/// descriptor.
pub open spec fn taskforce_entries(tf: Taskforce) -> Seq<(Seq<char>, Seq<char>, Seq<char>)> {
    let name = tf.name@;
    let w = tf.options.weapon_state;
    kind_entries(name, UnitType::Ship, tf.units.of(UnitType::Ship), w) + kind_entries(
        name,
        UnitType::Submarine,
        tf.units.of(UnitType::Submarine),
        w,
    ) + kind_entries(name, UnitType::Helicopter, tf.units.of(UnitType::Helicopter), w)
        + kind_entries(name, UnitType::FixedWing, tf.units.of(UnitType::FixedWing), w) + seq![
        ("Mission"@, name + "_NumberOfFormations"@, dec_spec(tf.formations@.len() as nat)),
    ] + formation_entries(name, formation_views(tf.formations@))
}

/// Append one assignment to a pending list.
fn push_entry(out: &mut Vec<(String, String, String)>, section: String, key: String, value: String)
    ensures
        entry_views(final(out)@) == entry_views(old(out)@).push((section@, key@, value@)),
{
    let ghost before = entry_views(out@);
    out.push((section, key, value));
    proof {
        assert(entry_views(out@) =~= before.push(
            (out@.last().0@, out@.last().1@, out@.last().2@),
        ));
    }
}

impl Taskforce {
    /// Everything this taskforce's serialization stores, in order, as
    /// plain section/key/value triples.
    pub fn ini_entries(&self) -> (r: Vec<(String, String, String)>)
        requires
            self.refs_valid(),
        ensures
            entry_views(r@) == taskforce_entries(*self),
    {
        let ships_len = self.units.len_of(UnitType::Ship);
        let submarines_len = self.units.len_of(UnitType::Submarine);
        let helicopters_len = self.units.len_of(UnitType::Helicopter);
        let fixed_wings_len = self.units.len_of(UnitType::FixedWing);
        proof {
            assert forall|t: UnitType| self.units.of(t).len() <= usize::MAX by {
                match t {
                    UnitType::Ship => assert(self.units.of(t).len() == ships_len),
                    UnitType::Submarine => assert(self.units.of(t).len() == submarines_len),
                    UnitType::Helicopter => assert(self.units.of(t).len() == helicopters_len),
                    UnitType::FixedWing => assert(self.units.of(t).len() == fixed_wings_len),
                }
            }
        }
        let mut out: Vec<(String, String, String)> = Vec::new();
        proof {
            assert(entry_views(out@) =~= Seq::<(Seq<char>, Seq<char>, Seq<char>)>::empty());
        }
        let ghost e0 = entry_views(out@);
        self.kind_entries_into(UnitType::Ship, &mut out);
        self.kind_entries_into(UnitType::Submarine, &mut out);
        self.kind_entries_into(UnitType::Helicopter, &mut out);
        self.kind_entries_into(UnitType::FixedWing, &mut out);
        let ghost e4 = entry_views(out@);
        let mut fcount_key = self.name.clone();
        fcount_key.append("_NumberOfFormations");
        push_entry(
            &mut out,
            "Mission".to_owned(),
            fcount_key,
            usize_to_string(self.formations.len()),
        );
        let ghost e5 = entry_views(out@);
        proof {
            assert(e5 =~= e4 + seq![
                (
                    "Mission"@,
                    self.name@ + "_NumberOfFormations"@,
                    dec_spec(self.formations@.len() as nat),
                ),
            ]);
        }
        let ghost fvs = formation_views(self.formations@);
        let mut fi: usize = 0;
        let flen = self.formations.len();
        proof {
            assert(fvs.take(0) =~= Seq::<Seq<(UnitType, usize)>>::empty());
            assert(entry_views(out@) =~= e5 + formation_entries(self.name@, fvs.take(0)));
        }
        while fi < flen
            invariant
                fi <= flen,
                flen == self.formations@.len(),
                self.refs_valid(),
                forall|t: UnitType| #[trigger] self.units.of(t).len() <= usize::MAX,
                fvs == formation_views(self.formations@),
                entry_views(out@) == e5 + formation_entries(self.name@, fvs.take(fi as int)),
                e5 == e4 + seq![
                    (
                        "Mission"@,
                        self.name@ + "_NumberOfFormations"@,
                        dec_spec(self.formations@.len() as nat),
                    ),
                ],
            decreases flen - fi,
        {
            let formation = &self.formations[fi];
            proof {
                assert forall|j: int|
                    0 <= j < formation@.len() implies (#[trigger] formation@[j]).1
                    < usize::MAX by {
                    assert(self.formations@[fi as int]@[j].1 < self.units.of(
                        self.formations@[fi as int]@[j].0,
                    ).len());
                }
            }
            let value = formation_str(self.name.as_str(), formation);
            let mut fkey = self.name.clone();
            fkey.append("_Formation");
            fkey.append(usize_to_string(fi + 1).as_str());
            push_entry(&mut out, "Mission".to_owned(), fkey, value);
            proof {
                assert(fvs.take(fi + 1).drop_last() =~= fvs.take(fi as int));
                assert(fvs.take(fi + 1).last() == fvs[fi as int]);
                assert(fvs[fi as int] == self.formations@[fi as int]@);
                assert(self.name@ + "_Formation"@ + dec_spec((fi + 1) as nat) =~= (self.name@
                    + "_Formation"@) + dec_spec((fi + 1) as nat));
                assert(entry_views(out@) =~= e5 + formation_entries(
                    self.name@,
                    fvs.take(fi + 1),
                ));
            }
            fi = fi + 1;
        }
        proof {
            assert(fvs.take(flen as int) =~= fvs);
            assert(entry_views(out@) =~= taskforce_entries(*self));
        }
        out
    }

    /// Append one kind's count key and unit sections to a pending list.
    fn kind_entries_into(&self, t: UnitType, out: &mut Vec<(String, String, String)>)
        ensures
            entry_views(final(out)@) == entry_views(old(out)@) + kind_entries(
                self.name@,
                t,
                self.units.of(t),
                self.options.weapon_state,
            ),
    {
        let ghost w = self.options.weapon_state;
        let n = self.units.len_of(t);
        if n == 0 {
            proof {
                assert(entry_views(out@) =~= entry_views(out@) + kind_entries(
                    self.name@,
                    t,
                    self.units.of(t),
                    w,
                ));
            }
            return ;
        }
        let ghost e0 = entry_views(out@);
        push_entry(
            &mut *out,
            "Mission".to_owned(),
            count_key_exec(self.name.as_str(), t),
            usize_to_string(n),
        );
        let ghost e1 = entry_views(out@);
        proof {
            assert(e1 =~= e0 + seq![
                ("Mission"@, count_key(self.name@, t), dec_spec(n as nat)),
            ]);
        }
        let mut i: usize = 0;
        proof {
            assert(self.units.of(t).take(0) =~= Seq::<Unit>::empty());
            assert(entry_views(out@) =~= e1 + kind_unit_entries(
                self.name@,
                t,
                self.units.of(t).take(0),
                w,
            ));
        }
        while i < n
            invariant
                i <= n,
                n == self.units.of(t).len(),
                w == self.options.weapon_state,
                entry_views(out@) == e1 + kind_unit_entries(
                    self.name@,
                    t,
                    self.units.of(t).take(i as int),
                    w,
                ),
                e1 == e0 + seq![("Mission"@, count_key(self.name@, t), dec_spec(n as nat))],
            decreases n - i,
        {
            let u = self.units.unit_at(t, i);
            let sec = sec_name_exec(self.name.as_str(), t, i + 1);
            let mut relpos = u.position.0.clone();
            relpos.append(",0,");
            relpos.append(u.position.1.as_str());
            push_entry(&mut *out, sec.clone(), "Type".to_owned(), u.id.clone());
            push_entry(&mut *out, sec.clone(), "Telegraph".to_owned(), "3".to_owned());
            push_entry(&mut *out, sec.clone(), "CrewSkill".to_owned(), "Trained".to_owned());
            push_entry(&mut *out, sec.clone(), "Stores".to_owned(), "Full".to_owned());
            push_entry(
                &mut *out,
                sec.clone(),
                "Heading".to_owned(),
                usize_to_string(u.heading as usize),
            );
            push_entry(&mut *out, sec.clone(), "RelativePositionInNM".to_owned(), relpos);
            push_entry(
                &mut *out,
                sec,
                "WeaponStatus".to_owned(),
                self.options.weapon_state.to_string(),
            );
            proof {
                let us = self.units.of(t);
                assert(us.take(i + 1).drop_last() =~= us.take(i as int));
                assert(us.take(i + 1).last() == us[i as int]);
                assert(us.take(i + 1).len() == i + 1);
                assert(entry_views(out@) =~= e1 + kind_unit_entries(
                    self.name@,
                    t,
                    us.take(i + 1),
                    w,
                ));
            }
            i = i + 1;
        }
        proof {
            assert(self.units.of(t).take(n as int) =~= self.units.of(t));
            assert(entry_views(out@) =~= entry_views(old(out)@) + kind_entries(
                self.name@,
                t,
                self.units.of(t),
                w,
            ));
        }
    }

    /// Serialize this taskforce into the document: every count key, unit
    /// section and formation descriptor, in order.
    pub fn write_ini(&self, config: &mut configparser::ini::Ini)
        requires
            ini_opts(*old(config)) == Some(true),
            self.refs_valid(),
        ensures
            ini_opts(*final(config)) == ini_opts(*old(config)),
            ini_doc(*final(config)) == apply_entries(
                ini_doc(*old(config)),
                taskforce_entries(*self),
            ),
    {
        let entries = self.ini_entries();
        apply_to_ini(config, &entries);
    }
}

impl Unit {
    /// Write this unit's own section keys: type, fixed telegraph, crew
    /// skill and stores, and the once-rolled heading and position.
    pub fn write_ini(&self, config: &mut configparser::ini::Ini, section: &str)
        requires
            ini_opts(*old(config)) == Some(true),
        ensures
            ini_opts(*final(config)) == ini_opts(*old(config)),
            ini_doc(*final(config)) == apply_entries(
                ini_doc(*old(config)),
                unit_base_entries(section@, self@),
            ),
    {
        let mut out: Vec<(String, String, String)> = Vec::new();
        proof {
            assert(entry_views(out@) =~= Seq::<(Seq<char>, Seq<char>, Seq<char>)>::empty());
        }
        let sec = section.to_owned();
        let mut relpos = self.position.0.clone();
        relpos.append(",0,");
        relpos.append(self.position.1.as_str());
        push_entry(&mut out, sec.clone(), "Type".to_owned(), self.id.clone());
        push_entry(&mut out, sec.clone(), "Telegraph".to_owned(), "3".to_owned());
        push_entry(&mut out, sec.clone(), "CrewSkill".to_owned(), "Trained".to_owned());
        push_entry(&mut out, sec.clone(), "Stores".to_owned(), "Full".to_owned());
        push_entry(
            &mut out,
            sec.clone(),
            "Heading".to_owned(),
            usize_to_string(self.heading as usize),
        );
        push_entry(&mut out, sec, "RelativePositionInNM".to_owned(), relpos);
        proof {
            assert(entry_views(out@) =~= unit_base_entries(section@, self@));
        }
        apply_to_ini(config, &out);
    }
}

/// Parse the mission template the generated keys are written over: a
/// case-sensitive document, so every key is stored verbatim.
pub fn load_template(text: &str) -> (r: Result<configparser::ini::Ini, String>)
    ensures
        (r is Ok) == (crate::ini::ini_parse(text@, true) is Ok),
        r matches Ok(ini) ==> ini_opts(ini) == Some(true) && ini_doc(ini) == crate::ini::ini_parse(
            text@,
            true,
        )->Ok_0,
        r matches Err(e) ==> e@ == crate::ini::ini_parse(text@, true)->Err_0,
{
    let mut config = crate::ini::ini_new_cs();
    match crate::ini::ini_read(&mut config, text.to_owned()) {
        Ok(()) => Ok(config),
        Err(e) => Err(e),
    }
}

/// The whole mission's declarative input.
#[derive(Debug)]
pub struct MissionOptions {
    pub general: GeneralOptions,
    pub neutral: TaskforceOptions,
    pub blue: TaskforceOptions,
    pub red: TaskforceOptions,
}

/// A fully assembled mission: the environment settings and the three
/// assembled taskforces.
pub struct Mission {
    pub general: GeneralOptions,
    pub neutral: Taskforce,
    pub blue: Taskforce,
    pub red: Taskforce,
}

/// The environment keys serialization stores.
pub open spec fn environment_entries(g: GeneralOptions) -> Seq<(Seq<char>, Seq<char>, Seq<char>)> {
    seq![
        ("Environment"@, "MapCenterLatitude"@, g.latlon.0@),
        ("Environment"@, "MapCenterLongitude"@, g.latlon.1@),
    ]
}

/// Everything a mission's serialization stores, in order.
pub open spec fn mission_entries(m: Mission) -> Seq<(Seq<char>, Seq<char>, Seq<char>)> {
    environment_entries(m.general) + taskforce_entries(m.neutral) + taskforce_entries(m.blue)
        + taskforce_entries(m.red)
}

impl Mission {
    /// Assemble the whole mission: the neutral side and the two opposing
    /// sides, under their fixed external names.
    pub fn new(unit_db: &UnitDb, options: MissionOptions) -> (r: Mission)
        ensures
            r.general == options.general,
            r.neutral.name@ == "Neutral"@,
            r.blue.name@ == "Taskforce1"@,
            r.red.name@ == "Taskforce2"@,
            assembled_from(r.neutral, *unit_db, options.general, options.neutral),
            assembled_from(r.blue, *unit_db, options.general, options.blue),
            assembled_from(r.red, *unit_db, options.general, options.red),
    {
        let MissionOptions { general, neutral, blue, red } = options;
        let neutral = Taskforce::new(unit_db, &general, "Neutral", neutral);
        let blue = Taskforce::new(unit_db, &general, "Taskforce1", blue);
        let red = Taskforce::new(unit_db, &general, "Taskforce2", red);
        Mission { general, neutral, blue, red }
    }

    /// Serialize the whole mission into the document: the environment keys,
    /// then each taskforce.
    pub fn write_ini(&self, config: &mut configparser::ini::Ini)
        requires
            ini_opts(*old(config)) == Some(true),
            self.neutral.refs_valid(),
            self.blue.refs_valid(),
            self.red.refs_valid(),
        ensures
            ini_opts(*final(config)) == ini_opts(*old(config)),
            ini_doc(*final(config)) == apply_entries(ini_doc(*old(config)), mission_entries(*self)),
    {
        let ghost d0 = ini_doc(*config);
        self.write_environment(config);
        self.neutral.write_ini(config);
        self.blue.write_ini(config);
        self.red.write_ini(config);
        proof {
            let a = environment_entries(self.general);
            let b = taskforce_entries(self.neutral);
            let c = taskforce_entries(self.blue);
            let d = taskforce_entries(self.red);
            lemma_apply_entries_concat(d0, a, b);
            lemma_apply_entries_concat(d0, a + b, c);
            lemma_apply_entries_concat(d0, a + b + c, d);
            assert(a + b + c + d =~= mission_entries(*self));
        }
    }

    /// Write the environment keys: the map center's latitude and longitude.
    fn write_environment(&self, config: &mut configparser::ini::Ini)
        requires
            ini_opts(*old(config)) == Some(true),
        ensures
            ini_opts(*final(config)) == ini_opts(*old(config)),
            ini_doc(*final(config)) == apply_entries(
                ini_doc(*old(config)),
                environment_entries(self.general),
            ),
    {
        let mut out: Vec<(String, String, String)> = Vec::new();
        proof {
            assert(entry_views(out@) =~= Seq::<(Seq<char>, Seq<char>, Seq<char>)>::empty());
        }
        push_entry(
            &mut out,
            "Environment".to_owned(),
            "MapCenterLatitude".to_owned(),
            self.general.latlon.0.clone(),
        );
        push_entry(
            &mut out,
            "Environment".to_owned(),
            "MapCenterLongitude".to_owned(),
            self.general.latlon.1.clone(),
        );
        proof {
            assert(entry_views(out@) =~= environment_entries(self.general));
        }
        apply_to_ini(config, &out);
    }
}

/// Ordinal stability: in a well-formed taskforce every formation
/// reference indexes its kind's list — ordinals are exactly the dense,
/// insertion-ordered indices of the per-kind lists — and no
/// `(kind, ordinal)` pair is referenced twice, within or across
/// formations.
pub proof fn lemma_ordinal_stability(tf: Taskforce)
    requires
        tf.wf(),
    ensures
        forall|f: int, j: int|
            0 <= f < tf.formations@.len() && 0 <= j < tf.formations@[f]@.len()
                ==> (#[trigger] tf.formations@[f]@[j]).1 < tf.units.of(
                tf.formations@[f]@[j].0,
            ).len(),
        forall|f1: int, j1: int, f2: int, j2: int|
            #![trigger tf.formations@[f1]@[j1], tf.formations@[f2]@[j2]]
            0 <= f1 < tf.formations@.len() && 0 <= j1 < tf.formations@[f1]@.len() && 0 <= f2
                < tf.formations@.len() && 0 <= j2 < tf.formations@[f2]@.len() && (f1 != f2 || j1
                != j2) ==> tf.formations@[f1]@[j1] != tf.formations@[f2]@[j2],
{
}

/// Whether any assignment of a list writes the given section and key.
pub open spec fn hits(
    es: Seq<(Seq<char>, Seq<char>, Seq<char>)>,
    sec: Seq<char>,
    key: Seq<char>,
) -> bool {
    exists|i: int| 0 <= i < es.len() && (#[trigger] es[i]).0 == sec && es[i].1 == key
}

/// A lookup is unchanged by assignments that never write its key.
pub proof fn lemma_apply_preserves(
    doc: Map<Seq<char>, Map<Seq<char>, Option<Seq<char>>>>,
    es: Seq<(Seq<char>, Seq<char>, Seq<char>)>,
    sec: Seq<char>,
    key: Seq<char>,
)
    requires
        !hits(es, sec, key),
    ensures
        doc_lookup(apply_entries(doc, es), sec, key) == doc_lookup(doc, sec, key),
    decreases es.len(),
{
    if es.len() > 0 {
        assert(!(es[0].0 == sec && es[0].1 == key));
        let next = doc_set(doc, es[0].0, es[0].1, Some(es[0].2));
        assert(doc_lookup(next, sec, key) == doc_lookup(doc, sec, key));
        assert(!hits(es.drop_first(), sec, key)) by {
            if hits(es.drop_first(), sec, key) {
                let i = choose|i: int|
                    0 <= i < es.drop_first().len() && (#[trigger] es.drop_first()[i]).0 == sec
                        && es.drop_first()[i].1 == key;
                assert(es[i + 1] == es.drop_first()[i]);
            }
        }
        lemma_apply_preserves(next, es.drop_first(), sec, key);
    }
}

/// Neither part of a concatenation writes the key, so neither does the
/// whole.
pub proof fn lemma_no_hits_concat(
    a: Seq<(Seq<char>, Seq<char>, Seq<char>)>,
    b: Seq<(Seq<char>, Seq<char>, Seq<char>)>,
    sec: Seq<char>,
    key: Seq<char>,
)
    requires
        !hits(a, sec, key),
        !hits(b, sec, key),
    ensures
        !hits(a + b, sec, key),
{
    if hits(a + b, sec, key) {
        let i = choose|i: int|
            0 <= i < (a + b).len() && (#[trigger] (a + b)[i]).0 == sec && (a + b)[i].1 == key;
        if i < a.len() {
            assert(a[i] == (a + b)[i]);
        } else {
            assert(b[i - a.len()] == (a + b)[i]);
        }
    }
}

/// The fixed labels and keys of the output schema, as character facts the
/// distinctness arguments need.
proof fn lemma_label_facts()
    ensures
        "Vessel"@.len() == 6,
        "Submarine"@.len() == 9,
        "Helicopter"@.len() == 10,
        "Aircraft"@.len() == 8,
        "s"@.len() == 1,
        "Mission"@.len() == 7,
        "Mission"@[6] == 'n',
        "NumberOf"@.len() == 8,
        crate::strutil::no_char("NumberOf"@, '_'),
        forall|t: UnitType|
            crate::strutil::no_char(#[trigger] singular_spec(t), '_') && crate::strutil::no_char(
                singular_spec(t),
                ',',
            ) && crate::strutil::no_char(singular_spec(t), '|'),
        forall|t: UnitType| crate::strutil::no_char(#[trigger] plural_spec(t), '_'),
        plural_spec(UnitType::Ship).len() == 7,
        plural_spec(UnitType::Submarine).len() == 10,
        plural_spec(UnitType::Helicopter).len() == 11,
        plural_spec(UnitType::FixedWing).len() == 8,
        "_NumberOfFormations"@.len() == 19,
        "_NumberOfFormations"@[0] == '_',
        "_Formation"@.len() == 10,
        "_Formation"@[0] == '_',
        formation_suffix()[0] == '|',
        formation_suffix().len() >= 1,
{
    reveal_strlit("Vessel");
    reveal_strlit("Submarine");
    reveal_strlit("Helicopter");
    reveal_strlit("Aircraft");
    reveal_strlit("s");
    reveal_strlit("Mission");
    reveal_strlit("NumberOf");
    reveal_strlit("_NumberOfFormations");
    reveal_strlit("_Formation");
    reveal_strlit("|Unnamed Group|Circle|7.5|OverrideSpawnPositions");
    assert forall|t: UnitType|
        crate::strutil::no_char(#[trigger] singular_spec(t), '_') && crate::strutil::no_char(
            singular_spec(t),
            ',',
        ) && crate::strutil::no_char(singular_spec(t), '|') by {
        match t {
            UnitType::Ship => {},
            UnitType::Submarine => {},
            UnitType::Helicopter => {},
            UnitType::FixedWing => {},
        }
    }
    assert forall|t: UnitType| crate::strutil::no_char(#[trigger] plural_spec(t), '_') by {
        match t {
            UnitType::FixedWing => {},
            _ => {
                assert forall|i: int|
                    0 <= i < plural_spec(t).len() implies plural_spec(t)[i] != '_' by {
                    if i < singular_spec(t).len() {
                        assert(plural_spec(t)[i] == singular_spec(t)[i]);
                    } else {
                        assert(plural_spec(t)[i] == "s"@[i - singular_spec(t).len()]);
                    }
                }
            },
        }
    }
}

/// A unit's section name never collides with the `Mission` section: it
/// ends in a digit.
proof fn lemma_sec_name_ne_mission(tf: Seq<char>, t: UnitType, o: nat)
    ensures
        sec_name(tf, t, o) != "Mission"@,
{
    lemma_label_facts();
    crate::lemma_dec_digits(o);
    let s = sec_name(tf, t, o);
    if s == "Mission"@ {
        assert(s.len() == 7);
        assert(s[s.len() - 1] == dec_spec(o)[dec_spec(o).len() - 1]);
        assert('0' <= s[6] <= '9');
        assert(s[6] == 'n');
        assert(false);
    }
}

/// Count keys of different kinds differ: their plural labels have
/// different lengths.
proof fn lemma_count_key_ne(tf: Seq<char>, t1: UnitType, t2: UnitType)
    requires
        t1 != t2,
    ensures
        count_key(tf, t1) != count_key(tf, t2),
{
    lemma_label_facts();
    assert(count_key(tf, t1).len() == 8 + tf.len() + plural_spec(t1).len());
    assert(count_key(tf, t2).len() == 8 + tf.len() + plural_spec(t2).len());
    match t1 {
        UnitType::Ship => assert(plural_spec(t1).len() == 7),
        UnitType::Submarine => assert(plural_spec(t1).len() == 10),
        UnitType::Helicopter => assert(plural_spec(t1).len() == 11),
        UnitType::FixedWing => assert(plural_spec(t1).len() == 8),
    }
    match t2 {
        UnitType::Ship => assert(plural_spec(t2).len() == 7),
        UnitType::Submarine => assert(plural_spec(t2).len() == 10),
        UnitType::Helicopter => assert(plural_spec(t2).len() == 11),
        UnitType::FixedWing => assert(plural_spec(t2).len() == 8),
    }
}

/// A count key of a taskforce whose name is free of underscores is itself
/// free of underscores.
proof fn lemma_count_key_no_underscore(tf: Seq<char>, t: UnitType)
    requires
        crate::strutil::no_char(tf, '_'),
    ensures
        crate::strutil::no_char(count_key(tf, t), '_'),
{
    lemma_label_facts();
    let k = count_key(tf, t);
    assert forall|i: int| 0 <= i < k.len() implies k[i] != '_' by {
        if i < 8 {
            assert(k[i] == "NumberOf"@[i]);
        } else if i < 8 + tf.len() {
            assert(k[i] == tf[i - 8]);
        } else {
            assert(k[i] == plural_spec(t)[i - 8 - tf.len()]);
        }
    }
}

/// Every assignment of a kind's unit sections targets a unit section, not
/// the `Mission` section.
proof fn lemma_kind_unit_entries_sections(tf: Seq<char>, t: UnitType, us: Seq<Unit>, w: WeaponState)
    ensures
        forall|i: int|
            0 <= i < kind_unit_entries(tf, t, us, w).len() ==> (#[trigger] kind_unit_entries(
                tf,
                t,
                us,
                w,
            )[i]).0 != "Mission"@,
    decreases us.len(),
{
    if us.len() > 0 {
        lemma_kind_unit_entries_sections(tf, t, us.drop_last(), w);
        lemma_sec_name_ne_mission(tf, t, us.len() as nat);
        let prev = kind_unit_entries(tf, t, us.drop_last(), w);
        let fresh = unit_entries(sec_name(tf, t, us.len() as nat), us.last()@, w);
        assert forall|i: int|
            0 <= i < kind_unit_entries(tf, t, us, w).len() implies (#[trigger] kind_unit_entries(
            tf,
            t,
            us,
            w,
        )[i]).0 != "Mission"@ by {
            if i < prev.len() {
                assert(kind_unit_entries(tf, t, us, w)[i] == prev[i]);
            } else {
                assert(kind_unit_entries(tf, t, us, w)[i] == fresh[i - prev.len()]);
                assert(fresh[i - prev.len()].0 == sec_name(tf, t, us.len() as nat));
            }
        }
    }
}

/// A kind's entries never write another kind's count key.
proof fn lemma_kind_entries_no_hit_count(
    tf: Seq<char>,
    t: UnitType,
    us: Seq<Unit>,
    w: WeaponState,
    t0: UnitType,
)
    requires
        t != t0,
    ensures
        !hits(kind_entries(tf, t, us, w), "Mission"@, count_key(tf, t0)),
{
    lemma_count_key_ne(tf, t, t0);
    lemma_kind_unit_entries_sections(tf, t, us, w);
    if us.len() > 0 && hits(kind_entries(tf, t, us, w), "Mission"@, count_key(tf, t0)) {
        let es = kind_entries(tf, t, us, w);
        let i = choose|i: int|
            0 <= i < es.len() && (#[trigger] es[i]).0 == "Mission"@ && es[i].1 == count_key(
                tf,
                t0,
            );
        if i == 0 {
            assert(es[0].1 == count_key(tf, t));
        } else {
            assert(es[i] == kind_unit_entries(tf, t, us, w)[i - 1]);
        }
    }
}

/// What the formation chunk holds, entry by entry.
proof fn lemma_formation_entries_index(tf: Seq<char>, fs: Seq<Seq<(UnitType, usize)>>)
    ensures
        formation_entries(tf, fs).len() == fs.len(),
        forall|i: int|
            0 <= i < fs.len() ==> #[trigger] formation_entries(tf, fs)[i] == (
                "Mission"@,
                tf + "_Formation"@ + dec_spec((i + 1) as nat),
                formation_value(tf, fs[i]),
            ),
    decreases fs.len(),
{
    if fs.len() > 0 {
        lemma_formation_entries_index(tf, fs.drop_last());
        let es = formation_entries(tf, fs);
        let prev = formation_entries(tf, fs.drop_last());
        assert forall|i: int|
            0 <= i < fs.len() implies #[trigger] es[i] == (
            "Mission"@,
            tf + "_Formation"@ + dec_spec((i + 1) as nat),
            formation_value(tf, fs[i]),
        ) by {
            if i < fs.len() - 1 {
                assert(es[i] == prev[i]);
                assert(fs.drop_last()[i] == fs[i]);
            } else {
                assert(es[i] == es.last());
            }
        }
    }
}

/// A formation key carries an underscore right after the taskforce name.
proof fn lemma_formation_key_underscore(tf: Seq<char>, n: nat)
    ensures
        (tf + "_Formation"@ + dec_spec(n)).len() > tf.len(),
        (tf + "_Formation"@ + dec_spec(n))[tf.len() as int] == '_',
{
    lemma_label_facts();
    crate::lemma_dec_digits(n);
    let k = tf + "_Formation"@ + dec_spec(n);
    assert(k[tf.len() as int] == "_Formation"@[0]);
}

/// The formation chunk never writes a key free of underscores.
proof fn lemma_formation_chunk_no_hit(
    tf: Seq<char>,
    fs: Seq<Seq<(UnitType, usize)>>,
    key: Seq<char>,
)
    requires
        crate::strutil::no_char(key, '_'),
    ensures
        !hits(formation_entries(tf, fs), "Mission"@, key),
{
    lemma_formation_entries_index(tf, fs);
    if hits(formation_entries(tf, fs), "Mission"@, key) {
        let es = formation_entries(tf, fs);
        let i = choose|i: int|
            0 <= i < es.len() && (#[trigger] es[i]).0 == "Mission"@ && es[i].1 == key;
        lemma_formation_key_underscore(tf, (i + 1) as nat);
        assert(key[tf.len() as int] == '_');
    }
}

/// A unit's section name avoids any character that the taskforce name
/// avoids, unless it is a digit.
proof fn lemma_sec_name_no_sep(tf: Seq<char>, t: UnitType, o: nat, c: char)
    requires
        crate::strutil::no_char(tf, c),
        crate::strutil::no_char(singular_spec(t), c),
        !('0' <= c <= '9'),
    ensures
        crate::strutil::no_char(sec_name(tf, t, o), c),
{
    crate::lemma_dec_digits(o);
    let s = sec_name(tf, t, o);
    assert forall|i: int| 0 <= i < s.len() implies s[i] != c by {
        if i < tf.len() {
            assert(s[i] == tf[i]);
        } else if i < tf.len() + singular_spec(t).len() {
            assert(s[i] == singular_spec(t)[i - tf.len()]);
        } else {
            assert(s[i] == dec_spec(o)[i - tf.len() - singular_spec(t).len()]);
            assert('0' <= s[i] <= '9');
        }
    }
}

/// The joined member names hold no pipe character.
proof fn lemma_join_no_pipe(tf: Seq<char>, refs: Seq<(UnitType, usize)>)
    requires
        crate::strutil::no_char(tf, '|'),
    ensures
        crate::strutil::no_char(join_refs(tf, refs), '|'),
    decreases refs.len(),
{
    lemma_label_facts();
    reveal_strlit(",");
    if refs.len() == 1 {
        lemma_sec_name_no_sep(tf, refs[0].0, (refs[0].1 + 1) as nat, '|');
    } else if refs.len() > 1 {
        lemma_sec_name_no_sep(tf, refs[0].0, (refs[0].1 + 1) as nat, '|');
        lemma_join_no_pipe(tf, refs.drop_first());
        let s = join_refs(tf, refs);
        let sec0 = sec_name(tf, refs[0].0, (refs[0].1 + 1) as nat);
        let rest = join_refs(tf, refs.drop_first());
        assert forall|i: int| 0 <= i < s.len() implies s[i] != '|' by {
            if i < sec0.len() {
                assert(s[i] == sec0[i]);
            } else if i < sec0.len() + 1 {
                assert(s[i] == ","@[0]);
            } else {
                assert(s[i] == rest[i - sec0.len() - 1]);
            }
        }
    }
}

/// Where the pipe first occurs in a formation descriptor: right after the
/// joined member names.
proof fn lemma_formation_value_pipe(tf: Seq<char>, refs: Seq<(UnitType, usize)>)
    requires
        crate::strutil::no_char(tf, '|'),
    ensures
        crate::strutil::char_index(formation_value(tf, refs), '|') == Some(
            join_refs(tf, refs).len() as int,
        ),
        formation_value(tf, refs).take(join_refs(tf, refs).len() as int) == join_refs(tf, refs),
{
    lemma_label_facts();
    lemma_join_no_pipe(tf, refs);
    let v = formation_value(tf, refs);
    let join = join_refs(tf, refs);
    let j = join.len() as int;
    assert(v[j] == formation_suffix()[0]);
    assert(forall|i: int| 0 <= i < j ==> v[i] == join[i]);
    crate::strutil::lemma_char_index(v, '|');
    match crate::strutil::char_index(v, '|') {
        Some(i) => {
            if i < j {
                assert(v[i] == join[i]);
                assert(false);
            }
            if i > j {
                assert(v[j] != '|');
                assert(false);
            }
        },
        None => {
            assert(v[j] != '|');
            assert(false);
        },
    }
    assert(v.take(j) =~= join);
}

/// Parsing the comma-joined member names gives back exactly the member
/// section names, in order.
proof fn lemma_join_split(tf: Seq<char>, refs: Seq<(UnitType, usize)>)
    requires
        refs.len() > 0,
        crate::strutil::no_char(tf, ','),
    ensures
        crate::strutil::split_char(join_refs(tf, refs), ',') == refs.map_values(
            |r: (UnitType, usize)| sec_name(tf, r.0, (r.1 + 1) as nat),
        ),
    decreases refs.len(),
{
    lemma_label_facts();
    reveal_strlit(",");
    let m = refs.map_values(|r: (UnitType, usize)| sec_name(tf, r.0, (r.1 + 1) as nat));
    let sec0 = sec_name(tf, refs[0].0, (refs[0].1 + 1) as nat);
    lemma_sec_name_no_sep(tf, refs[0].0, (refs[0].1 + 1) as nat, ',');
    if refs.len() == 1 {
        crate::strutil::lemma_split_no_sep(sec0, ',');
        assert(crate::strutil::split_char(join_refs(tf, refs), ',') =~~= m);
    } else {
        let rest = join_refs(tf, refs.drop_first());
        lemma_join_split(tf, refs.drop_first());
        assert(","@ =~= seq![',']);
        assert(join_refs(tf, refs) =~= sec0 + seq![','] + rest);
        crate::strutil::lemma_split_concat(sec0, rest, ',');
        let mrest = refs.drop_first().map_values(
            |r: (UnitType, usize)| sec_name(tf, r.0, (r.1 + 1) as nat),
        );
        assert(crate::strutil::split_char(rest, ',') == mrest);
        assert forall|i: int| 0 <= i < m.len() implies m[i] == (seq![sec0] + mrest)[i] by {
            if i >= 1 {
                assert(refs.drop_first()[i - 1] == refs[i]);
                assert(mrest[i - 1] == sec_name(tf, refs[i].0, (refs[i].1 + 1) as nat));
            }
        }
        assert(crate::strutil::split_char(join_refs(tf, refs), ',') =~~= m);
    }
}

/// Formation descriptor membership: in the document a taskforce writes,
/// each formation's key holds a descriptor whose comma-separated prefix —
/// the text before the first pipe — parses back to exactly the member
/// section names, in assembly order.
pub proof fn lemma_formation_descriptor(
    doc: Map<Seq<char>, Map<Seq<char>, Option<Seq<char>>>>,
    tf: Taskforce,
    f: int,
)
    requires
        0 <= f < tf.formations@.len(),
        tf.formations@[f]@.len() > 0,
        crate::strutil::no_char(tf.name@, '_'),
        crate::strutil::no_char(tf.name@, ','),
        crate::strutil::no_char(tf.name@, '|'),
    ensures
        ({
            let fdoc = apply_entries(doc, taskforce_entries(tf));
            let key = tf.name@ + "_Formation"@ + dec_spec((f + 1) as nat);
            let refs = tf.formations@[f]@;
            let join = join_refs(tf.name@, refs);
            match doc_lookup(fdoc, "Mission"@, key) {
                Some(value) => {
                    &&& value == formation_value(tf.name@, refs)
                    &&& crate::strutil::char_index(value, '|') == Some(join.len() as int)
                    &&& crate::strutil::split_char(value.take(join.len() as int), ',')
                        == refs.map_values(
                        |r: (UnitType, usize)| sec_name(tf.name@, r.0, (r.1 + 1) as nat),
                    )
                },
                None => false,
            }
        }),
{
    let name = tf.name@;
    let w = tf.options.weapon_state;
    let refs = tf.formations@[f]@;
    let key = name + "_Formation"@ + dec_spec((f + 1) as nat);
    let c1 = kind_entries(name, UnitType::Ship, tf.units.of(UnitType::Ship), w);
    let c2 = kind_entries(name, UnitType::Submarine, tf.units.of(UnitType::Submarine), w);
    let c3 = kind_entries(name, UnitType::Helicopter, tf.units.of(UnitType::Helicopter), w);
    let c4 = kind_entries(name, UnitType::FixedWing, tf.units.of(UnitType::FixedWing), w);
    let nf = seq![
        ("Mission"@, name + "_NumberOfFormations"@, dec_spec(tf.formations@.len() as nat)),
    ];
    let fvs = formation_views(tf.formations@);
    let ff = formation_entries(name, fvs);
    let pre = c1 + c2 + c3 + c4 + nf;
    assert(taskforce_entries(tf) =~= pre + ff);
    lemma_apply_entries_concat(doc, pre, ff);
    let d1 = apply_entries(doc, pre);
    lemma_formation_entries_index(name, fvs);
    assert(fvs[f] == tf.formations@[f]@);
    assert(ff[f] == ("Mission"@, key, formation_value(name, refs)));
    let ffpre = ff.take(f + 1);
    let ffpost = ff.skip(f + 1);
    assert(ff =~= ffpre + ffpost);
    lemma_apply_entries_concat(d1, ffpre, ffpost);
    lemma_apply_entries_snoc(d1, ff.take(f), ff[f]);
    assert(ffpre =~= ff.take(f).push(ff[f]));
    let d2 = apply_entries(d1, ffpre);
    assert(d2 == doc_set(
        apply_entries(d1, ff.take(f)),
        "Mission"@,
        key,
        Some(formation_value(name, refs)),
    ));
    assert(doc_lookup(d2, "Mission"@, key) == Some(formation_value(name, refs)));
    assert(!hits(ffpost, "Mission"@, key)) by {
        if hits(ffpost, "Mission"@, key) {
            let i = choose|i: int|
                0 <= i < ffpost.len() && (#[trigger] ffpost[i]).0 == "Mission"@ && ffpost[i].1
                    == key;
            assert(ffpost[i] == ff[i + f + 1]);
            let g = i + f + 1;
            assert(ff[g].1 == name + "_Formation"@ + dec_spec((g + 1) as nat));
            let ka = name + "_Formation"@ + dec_spec((f + 1) as nat);
            let kb = name + "_Formation"@ + dec_spec((g + 1) as nat);
            assert(ka == kb);
            let p = (name + "_Formation"@).len() as int;
            assert(ka.len() == p + dec_spec((f + 1) as nat).len());
            assert(kb.len() == p + dec_spec((g + 1) as nat).len());
            assert(dec_spec((f + 1) as nat).len() == dec_spec((g + 1) as nat).len());
            assert(dec_spec((f + 1) as nat) =~= dec_spec((g + 1) as nat)) by {
                assert forall|k: int|
                    0 <= k < dec_spec((f + 1) as nat).len() implies #[trigger] dec_spec(
                    (f + 1) as nat,
                )[k] == dec_spec((g + 1) as nat)[k] by {
                    assert(ka[p + k] == dec_spec((f + 1) as nat)[k]);
                    assert(kb[p + k] == dec_spec((g + 1) as nat)[k]);
                }
            }
            crate::lemma_dec_injective((f + 1) as nat, (g + 1) as nat);
            assert(false);
        }
    }
    lemma_apply_preserves(d2, ffpost, "Mission"@, key);
    assert(doc_lookup(apply_entries(doc, taskforce_entries(tf)), "Mission"@, key) == Some(
        formation_value(name, refs),
    ));
    lemma_formation_value_pipe(name, refs);
    lemma_join_split(name, refs);
}

/// Round-trip of count keys: in the document a taskforce writes, the count
/// key of every kind that has units holds exactly that kind's list length.
#[verifier::rlimit(100)]
pub proof fn lemma_count_key_roundtrip(
    doc: Map<Seq<char>, Map<Seq<char>, Option<Seq<char>>>>,
    tf: Taskforce,
    t: UnitType,
)
    requires
        tf.units.of(t).len() > 0,
        crate::strutil::no_char(tf.name@, '_'),
    ensures
        doc_lookup(
            apply_entries(doc, taskforce_entries(tf)),
            "Mission"@,
            count_key(tf.name@, t),
        ) == Some(dec_spec(tf.units.of(t).len() as nat)),
{
    let name = tf.name@;
    let w = tf.options.weapon_state;
    let c1 = kind_entries(name, UnitType::Ship, tf.units.of(UnitType::Ship), w);
    let c2 = kind_entries(name, UnitType::Submarine, tf.units.of(UnitType::Submarine), w);
    let c3 = kind_entries(name, UnitType::Helicopter, tf.units.of(UnitType::Helicopter), w);
    let c4 = kind_entries(name, UnitType::FixedWing, tf.units.of(UnitType::FixedWing), w);
    let nf = seq![
        ("Mission"@, name + "_NumberOfFormations"@, dec_spec(tf.formations@.len() as nat)),
    ];
    let ff = formation_entries(name, formation_views(tf.formations@));
    let key = count_key(name, t);
    let ct = kind_entries(name, t, tf.units.of(t), w);
    let pre: Seq<(Seq<char>, Seq<char>, Seq<char>)> = match t {
        UnitType::Ship => Seq::empty(),
        UnitType::Submarine => c1,
        UnitType::Helicopter => c1 + c2,
        UnitType::FixedWing => c1 + c2 + c3,
    };
    let post: Seq<(Seq<char>, Seq<char>, Seq<char>)> = match t {
        UnitType::Ship => c2 + c3 + c4 + nf + ff,
        UnitType::Submarine => c3 + c4 + nf + ff,
        UnitType::Helicopter => c4 + nf + ff,
        UnitType::FixedWing => nf + ff,
    };
    assert(taskforce_entries(tf) =~= pre + (ct + post));
    lemma_apply_entries_concat(doc, pre, ct + post);
    let d1 = apply_entries(doc, pre);
    lemma_apply_entries_concat(d1, ct, post);
    let us = tf.units.of(t);
    assert(ct == seq![("Mission"@, key, dec_spec(us.len() as nat))] + kind_unit_entries(
        name,
        t,
        us,
        w,
    ));
    lemma_apply_entries_concat(d1, seq![("Mission"@, key, dec_spec(us.len() as nat))],
        kind_unit_entries(name, t, us, w));
    let one = seq![("Mission"@, key, dec_spec(us.len() as nat))];
    assert(one.drop_first() =~= Seq::<(Seq<char>, Seq<char>, Seq<char>)>::empty());
    let d2 = apply_entries(d1, one);
    assert(one[0] == ("Mission"@, key, dec_spec(us.len() as nat)));
    assert(apply_entries(d1, one) == apply_entries(
        doc_set(d1, one[0].0, one[0].1, Some(one[0].2)),
        one.drop_first(),
    ));
    assert(apply_entries(doc_set(d1, one[0].0, one[0].1, Some(one[0].2)), one.drop_first())
        == doc_set(d1, one[0].0, one[0].1, Some(one[0].2)));
    assert(d2 == doc_set(d1, "Mission"@, key, Some(dec_spec(us.len() as nat))));
    assert(doc_lookup(d2, "Mission"@, key) == Some(dec_spec(us.len() as nat)));
    assert(!hits(kind_unit_entries(name, t, us, w), "Mission"@, key)) by {
        lemma_kind_unit_entries_sections(name, t, us, w);
        if hits(kind_unit_entries(name, t, us, w), "Mission"@, key) {
            let i = choose|i: int|
                0 <= i < kind_unit_entries(name, t, us, w).len() && (#[trigger] kind_unit_entries(
                    name,
                    t,
                    us,
                    w,
                )[i]).0 == "Mission"@ && kind_unit_entries(name, t, us, w)[i].1 == key;
        }
    }
    lemma_apply_preserves(d2, kind_unit_entries(name, t, us, w), "Mission"@, key);
    let d3 = apply_entries(d1, ct);
    assert(doc_lookup(d3, "Mission"@, key) == Some(dec_spec(us.len() as nat)));
    assert(!hits(nf, "Mission"@, key)) by {
        lemma_count_key_no_underscore(name, t);
        lemma_label_facts();
        if hits(nf, "Mission"@, key) {
            assert(nf[0].1 == key);
            assert((name + "_NumberOfFormations"@)[name.len() as int] == "_NumberOfFormations"@[0]);
            assert(key[name.len() as int] == '_');
        }
    }
    assert(!hits(ff, "Mission"@, key)) by {
        lemma_count_key_no_underscore(name, t);
        lemma_formation_chunk_no_hit(name, formation_views(tf.formations@), key);
    }
    assert(!hits(post, "Mission"@, key)) by {
        if t != UnitType::Ship {
            lemma_kind_entries_no_hit_count(name, UnitType::Ship, tf.units.of(UnitType::Ship), w, t);
        }
        if t != UnitType::Submarine {
            lemma_kind_entries_no_hit_count(
                name,
                UnitType::Submarine,
                tf.units.of(UnitType::Submarine),
                w,
                t,
            );
        }
        if t != UnitType::Helicopter {
            lemma_kind_entries_no_hit_count(
                name,
                UnitType::Helicopter,
                tf.units.of(UnitType::Helicopter),
                w,
                t,
            );
        }
        if t != UnitType::FixedWing {
            lemma_kind_entries_no_hit_count(
                name,
                UnitType::FixedWing,
                tf.units.of(UnitType::FixedWing),
                w,
                t,
            );
        }
        match t {
            UnitType::Ship => {
                lemma_no_hits_concat(c2, c3, "Mission"@, key);
                lemma_no_hits_concat(c2 + c3, c4, "Mission"@, key);
                lemma_no_hits_concat(c2 + c3 + c4, nf, "Mission"@, key);
                lemma_no_hits_concat(c2 + c3 + c4 + nf, ff, "Mission"@, key);
            },
            UnitType::Submarine => {
                lemma_no_hits_concat(c3, c4, "Mission"@, key);
                lemma_no_hits_concat(c3 + c4, nf, "Mission"@, key);
                lemma_no_hits_concat(c3 + c4 + nf, ff, "Mission"@, key);
            },
            UnitType::Helicopter => {
                lemma_no_hits_concat(c4, nf, "Mission"@, key);
                lemma_no_hits_concat(c4 + nf, ff, "Mission"@, key);
            },
            UnitType::FixedWing => {
                lemma_no_hits_concat(nf, ff, "Mission"@, key);
            },
        }
    }
    lemma_apply_preserves(d3, post, "Mission"@, key);
    assert(apply_entries(doc, taskforce_entries(tf)) == apply_entries(d3, post));
}

} // verus!
