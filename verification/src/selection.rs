//! The operator's selection lists, as the editing front end keeps them: a
//! flat sequence of units and formation markers, grouped into the loose
//! units and formations a taskforce specification needs.

use vstd::prelude::*;
use vstd::string::StringExecFns;

use crate::dec_spec;
use crate::mission::FormationOption;
use crate::mission::TaskforceOptions;
use crate::mission::UnitOption;
use crate::mission::UnitOptionV;
use crate::unit_db::singular_spec;
use crate::usize_to_string;

verus! {

/// One selected entry: a unit option and how many copies of it are wanted.
#[derive(Clone, Debug)]
pub struct UnitSelection {
    pub unit: UnitOption,
    pub count: usize,
}

/// The display name of a selection: the explicit id, or the random filters
/// in angle brackets, with a count suffix when more than one is wanted.
pub open spec fn selection_name(u: UnitOptionV, count: nat) -> Seq<char> {
    let base = match u {
        UnitOptionV::Unit(id) => id,
        UnitOptionV::Random { nation, utype } => match (nation, utype) {
            (Some(n), Some(t)) => "<RANDOM "@ + n + " "@ + singular_spec(t) + ">"@,
            (Some(n), None) => "<RANDOM "@ + n + ">"@,
            (None, Some(t)) => "<RANDOM "@ + singular_spec(t) + ">"@,
            (None, None) => "<RANDOM>"@,
        },
    };
    if count > 1 {
        base + " x "@ + dec_spec(count)
    } else {
        base
    }
}

/// A selection's options, one per wanted copy.
pub open spec fn repeat_option(o: UnitOptionV, n: nat) -> Seq<UnitOptionV> {
    Seq::new(n, |i: int| o)
}

/// The views of a list of unit options, in order.
pub open spec fn option_list_views(os: Seq<UnitOption>) -> Seq<UnitOptionV> {
    os.map_values(|o: UnitOption| o@)
}

/// Appending an option appends its view.
pub proof fn lemma_option_views_push(os: Seq<UnitOption>, o: UnitOption)
    ensures
        option_list_views(os.push(o)) == option_list_views(os).push(o@),
{
    assert(option_list_views(os.push(o)) =~= option_list_views(os).push(o@));
}

/// The options a selection list stands for, each selection expanded to its
/// count of copies, in order.
pub open spec fn selections_options(ss: Seq<UnitSelection>) -> Seq<UnitOptionV>
    decreases ss.len(),
{
    if ss.len() == 0 {
        Seq::empty()
    } else {
        selections_options(ss.drop_last()) + repeat_option(
            ss.last().unit@,
            ss.last().count as nat,
        )
    }
}

impl UnitSelection {
    /// A selection of a single copy of an option.
    pub fn new(unit: UnitOption) -> (r: UnitSelection)
        ensures
            r.unit@ == unit@,
            r.count == 1,
    {
        UnitSelection { unit, count: 1 }
    }

    /// An equal selection, field for field.
    pub fn duplicate(&self) -> (r: UnitSelection)
        ensures
            r == *self,
    {
        UnitSelection { unit: self.unit.duplicate(), count: self.count }
    }

    /// The name the selection tree shows for this entry.
    pub fn name(&self) -> (r: String)
        ensures
            r@ == selection_name(self.unit@, self.count as nat),
    {
        let mut base: String = match &self.unit {
            UnitOption::Unit(id) => id.clone(),
            UnitOption::Random { nation, utype } => {
                let mut s = "<RANDOM".to_owned();
                match nation {
                    Some(n) => {
                        s.append(" ");
                        s.append(n.as_str());
                    },
                    None => {},
                }
                match utype {
                    Some(t) => {
                        s.append(" ");
                        s.append(t.capitalised_singular().as_str());
                    },
                    None => {},
                }
                s.append(">");
                proof {
                    reveal_strlit("<RANDOM");
                    reveal_strlit("<RANDOM ");
                    reveal_strlit(" ");
                    reveal_strlit(">");
                    reveal_strlit("<RANDOM>");
                    assert(s@ =~= selection_name(self.unit@, 1));
                }
                s
            },
        };
        if self.count > 1 {
            base.append(" x ");
            base.append(usize_to_string(self.count).as_str());
            proof {
                assert(base@ =~= selection_name(self.unit@, self.count as nat));
            }
        }
        base
    }

    /// The options this selection contributes: its option, once per wanted
    /// copy.
    pub fn as_options(&self) -> (r: Vec<UnitOption>)
        ensures
            option_list_views(r@) == repeat_option(self.unit@, self.count as nat),
    {
        let mut r: Vec<UnitOption> = Vec::new();
        let mut i: usize = 0;
        while i < self.count
            invariant
                i <= self.count,
                option_list_views(r@) == repeat_option(self.unit@, i as nat),
            decreases self.count - i,
        {
            let ghost prev = r@;
            r.push(self.unit.duplicate());
            proof {
                lemma_option_views_push(prev, self.unit);
                assert(r@ == prev.push(self.unit));
                assert(option_list_views(r@) =~= repeat_option(self.unit@, (i + 1) as nat));
            }
            i = i + 1;
        }
        r
    }
}

/// Expand a selection list into the flat option list it stands for.
pub fn units_to_options(units: &Vec<UnitSelection>) -> (r: Vec<UnitOption>)
    ensures
        option_list_views(r@) == selections_options(units@),
{
    let mut r: Vec<UnitOption> = Vec::new();
    let mut i: usize = 0;
    let len = units.len();
    proof {
        assert(option_list_views(r@) =~= selections_options(units@.take(0)));
    }
    while i < len
        invariant
            i <= len,
            len == units@.len(),
            option_list_views(r@) == selections_options(units@.take(i as int)),
        decreases len - i,
    {
        let mut extra = units[i].as_options();
        let mut k: usize = 0;
        let elen = extra.len();
        let ghost base = option_list_views(r@);
        let ghost extra_views = option_list_views(extra@);
        while k < elen
            invariant
                k <= elen,
                elen == extra@.len(),
                extra_views == option_list_views(extra@),
                option_list_views(r@) == base + extra_views.take(k as int),
            decreases elen - k,
        {
            let ghost prev = r@;
            let o = extra[k].duplicate();
            r.push(o);
            proof {
                lemma_option_views_push(prev, extra@[k as int]);
                assert(r@ == prev.push(extra@[k as int]));
                assert(extra_views.take(k + 1) =~= extra_views.take(k as int).push(
                    extra_views[k as int],
                ));
                assert(option_list_views(r@) =~= base + extra_views.take(k + 1));
            }
            k = k + 1;
        }
        proof {
            assert(extra_views.take(elen as int) =~= extra_views);
            assert(units@.take(i + 1).drop_last() =~= units@.take(i as int));
            assert(units@.take(i + 1).last() == units@[i as int]);
            assert(option_list_views(r@) =~= selections_options(units@.take(i + 1)));
        }
        i = i + 1;
    }
    proof {
        assert(units@.take(len as int) =~= units@);
    }
    r
}

/// Wrap each option of a list in a single-copy selection.
pub fn options_to_units(opts: &Vec<UnitOption>) -> (r: Vec<UnitSelection>)
    ensures
        r@.len() == opts@.len(),
        forall|i: int|
            0 <= i < r@.len() ==> (#[trigger] r@[i]).unit@ == opts@[i]@ && r@[i].count == 1,
{
    let mut r: Vec<UnitSelection> = Vec::new();
    let mut i: usize = 0;
    let len = opts.len();
    while i < len
        invariant
            i <= len,
            len == opts@.len(),
            r@.len() == i,
            forall|k: int|
                0 <= k < r@.len() ==> (#[trigger] r@[k]).unit@ == opts@[k]@ && r@[k].count == 1,
        decreases len - i,
    {
        r.push(UnitSelection::new(opts[i].duplicate()));
        i = i + 1;
    }
    r
}

/// One item of the selection tree: a unit entry, or a formation marker
/// carrying its visible number.
#[derive(Clone, Debug)]
pub enum UnitTreeItem {
    Unit(UnitSelection),
    Formation(usize),
}

/// The views of a list of selection lists, in order.
pub open spec fn selection_list_views(fs: Seq<Vec<UnitSelection>>) -> Seq<Seq<UnitSelection>> {
    fs.map_values(|f: Vec<UnitSelection>| f@)
}

/// Group a flat item sequence: units before any formation marker are
/// loose, each marker opens a formation that collects the units after it.
pub open spec fn group_items(items: Seq<UnitTreeItem>) -> (Seq<UnitSelection>, Seq<
    Seq<UnitSelection>,
>)
    decreases items.len(),
{
    if items.len() == 0 {
        (Seq::empty(), Seq::empty())
    } else {
        let prev = group_items(items.drop_last());
        match items.last() {
            UnitTreeItem::Unit(sel) => if prev.1.len() == 0 {
                (prev.0.push(sel), prev.1)
            } else {
                (prev.0, prev.1.update(prev.1.len() - 1, prev.1.last().push(sel)))
            },
            UnitTreeItem::Formation(_) => (prev.0, prev.1.push(Seq::empty())),
        }
    }
}

/// All selected items of the tree, grouped: the loose units, and each
/// formation's members.
#[derive(Debug)]
pub struct UnitTreeSelection {
    pub units: Vec<UnitSelection>,
    pub formations: Vec<Vec<UnitSelection>>,
}

impl UnitTreeSelection {
    /// Group a flat list of tree items into loose units and formations.
    pub fn from_items(items: &Vec<UnitTreeItem>) -> (r: UnitTreeSelection)
        ensures
            (r.units@, selection_list_views(r.formations@)) == group_items(items@),
    {
        let mut units: Vec<UnitSelection> = Vec::new();
        let mut formations: Vec<Vec<UnitSelection>> = Vec::new();
        let mut i: usize = 0;
        let len = items.len();
        proof {
            assert(items@.take(0) =~= Seq::<UnitTreeItem>::empty());
            assert(selection_list_views(formations@) =~= Seq::<Seq<UnitSelection>>::empty());
        }
        while i < len
            invariant
                i <= len,
                len == items@.len(),
                (units@, selection_list_views(formations@)) == group_items(items@.take(i as int)),
            decreases len - i,
        {
            proof {
                assert(items@.take(i + 1).drop_last() =~= items@.take(i as int));
                assert(items@.take(i + 1).last() == items@[i as int]);
            }
            match &items[i] {
                UnitTreeItem::Unit(sel) => {
                    let flen = formations.len();
                    if flen == 0 {
                        units.push(sel.duplicate());
                        proof {
                            assert((units@, selection_list_views(formations@)).0 =~= group_items(
                                items@.take(i + 1),
                            ).0);
                        }
                    } else {
                        let mut last = formations.pop().unwrap();
                        last.push(sel.duplicate());
                        formations.push(last);
                        proof {
                            assert(selection_list_views(formations@) =~= group_items(
                                items@.take(i + 1),
                            ).1);
                        }
                    }
                },
                UnitTreeItem::Formation(_) => {
                    formations.push(Vec::new());
                    proof {
                        assert(selection_list_views(formations@) =~= group_items(
                            items@.take(i + 1),
                        ).1);
                    }
                },
            }
            i = i + 1;
        }
        proof {
            assert(items@.take(len as int) =~= items@);
        }
        UnitTreeSelection { units, formations }
    }

    /// The loose options this selection stands for.
    pub fn unit_options(&self) -> (r: Vec<UnitOption>)
        ensures
            option_list_views(r@) == selections_options(self.units@),
    {
        units_to_options(&self.units)
    }

    /// The formation specifications this selection stands for.
    pub fn formation_options(&self) -> (r: Vec<FormationOption>)
        ensures
            r@.len() == self.formations@.len(),
            forall|f: int|
                0 <= f < r@.len() ==> option_list_views((#[trigger] r@[f]).units@)
                    == selections_options(self.formations@[f]@),
    {
        let mut r: Vec<FormationOption> = Vec::new();
        let mut i: usize = 0;
        let len = self.formations.len();
        while i < len
            invariant
                i <= len,
                len == self.formations@.len(),
                r@.len() == i,
                forall|f: int|
                    0 <= f < r@.len() ==> option_list_views((#[trigger] r@[f]).units@)
                        == selections_options(self.formations@[f]@),
            decreases len - i,
        {
            r.push(FormationOption { units: units_to_options(&self.formations[i]) });
            i = i + 1;
        }
        r
    }

    /// Fill a taskforce specification's units and formations with this
    /// selection, leaving its weapon posture alone.
    pub fn fill_taskforce(&self, taskforce: &mut TaskforceOptions)
        ensures
            final(taskforce).weapon_state == old(taskforce).weapon_state,
            option_list_views(final(taskforce).units@) == selections_options(self.units@),
            final(taskforce).formations@.len() == self.formations@.len(),
            forall|f: int|
                0 <= f < final(taskforce).formations@.len() ==> option_list_views(
                    (#[trigger] final(taskforce).formations@[f]).units@,
                ) == selections_options(self.formations@[f]@),
    {
        taskforce.units = self.unit_options();
        taskforce.formations = self.formation_options();
    }

    /// The selection a taskforce specification round-trips to: every option
    /// wrapped as a single-copy selection.
    pub fn from_taskforce(taskforce: &TaskforceOptions) -> (r: UnitTreeSelection)
        ensures
            r.units@.len() == taskforce.units@.len(),
            forall|i: int|
                0 <= i < r.units@.len() ==> (#[trigger] r.units@[i]).unit@ == taskforce.units@[i]@
                    && r.units@[i].count == 1,
            r.formations@.len() == taskforce.formations@.len(),
            forall|f: int, i: int|
                0 <= f < r.formations@.len() && 0 <= i < r.formations@[f]@.len()
                    ==> (#[trigger] r.formations@[f]@[i]).unit@
                    == taskforce.formations@[f].units@[i]@ && r.formations@[f]@[i].count == 1,
            forall|f: int|
                0 <= f < r.formations@.len() ==> (#[trigger] r.formations@[f]@).len()
                    == taskforce.formations@[f].units@.len(),
    {
        let units = options_to_units(&taskforce.units);
        let mut formations: Vec<Vec<UnitSelection>> = Vec::new();
        let mut i: usize = 0;
        let len = taskforce.formations.len();
        while i < len
            invariant
                i <= len,
                len == taskforce.formations@.len(),
                formations@.len() == i,
                forall|f: int, k: int|
                    0 <= f < formations@.len() && 0 <= k < formations@[f]@.len()
                        ==> (#[trigger] formations@[f]@[k]).unit@
                        == taskforce.formations@[f].units@[k]@ && formations@[f]@[k].count == 1,
                forall|f: int|
                    0 <= f < formations@.len() ==> (#[trigger] formations@[f]@).len()
                        == taskforce.formations@[f].units@.len(),
            decreases len - i,
        {
            formations.push(options_to_units(&taskforce.formations[i].units));
            i = i + 1;
        }
        UnitTreeSelection { units, formations }
    }
}

} // verus!
