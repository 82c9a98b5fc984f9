//! Areas, the registry that holds them and the selection of the active one.

use crate::chance::{WeightingView, Weightings};
use crate::Title;
use vstd::prelude::*;
use vstd::string::StringExecFns;

verus! {

/// The closed set of tags an area can carry.
#[derive(Clone, Copy, Debug, PartialEq, Eq, Structural)]
pub enum AreaKind {
    Default,
    Forest,
    Desert,
    Swamp,
}

impl Default for AreaKind {
    fn default() -> (kind: AreaKind)
        ensures
            kind == AreaKind::Default,
    {
        AreaKind::Default
    }
}

/// What an area holds, as plain values.
pub struct AreaView {
    pub title: Seq<char>,
    pub kind: AreaKind,
    pub weightings: Seq<WeightingView>,
}

/// A named region of the world with its weighted content pools.
#[derive(Debug)]
pub struct Area {
    pub title: Title,
    pub kind: AreaKind,
    pub weightings: Weightings,
}

impl View for Area {
    type V = AreaView;

    open spec fn view(&self) -> AreaView {
        AreaView { title: self.title.text(), kind: self.kind, weightings: self.weightings@ }
    }
}

/// The area that stands in where no configured area can be selected.
pub open spec fn spec_fallback_area() -> AreaView {
    AreaView { title: "Default Area"@, kind: AreaKind::Default, weightings: Seq::empty() }
}

impl Area {
    /// An area without a title and without weightings.
    pub open spec fn spec_blank() -> AreaView {
        AreaView { title: Seq::empty(), kind: AreaKind::Default, weightings: Seq::empty() }
    }

    /// The hardcoded area that is selected when the registry has none of the
    /// requested kind.
    pub fn forest() -> (area: Area)
        ensures
            area@ == spec_fallback_area(),
    {
        Area {
            title: Title(String::from_str("Default Area")),
            kind: AreaKind::default(),
            weightings: Weightings::default(),
        }
    }
}

impl Clone for Area {
    fn clone(&self) -> (copy: Self)
        ensures
            copy@ == self@,
    {
        Area { title: self.title.clone(), kind: self.kind, weightings: self.weightings.clone() }
    }
}

impl Default for Area {
    fn default() -> (area: Area)
        ensures
            area@ == Area::spec_blank(),
    {
        Area {
            title: Title(String::new()),
            kind: AreaKind::default(),
            weightings: Weightings::default(),
        }
    }
}

/// The views of a list of areas, in order.
pub open spec fn area_views(areas: Seq<Area>) -> Seq<AreaView> {
    Seq::new(areas.len(), |i: int| areas[i]@)
}

/// The areas of one kind, in the order of the list.
pub open spec fn of_kind(areas: Seq<AreaView>, kind: AreaKind) -> Seq<AreaView>
    decreases areas.len(),
{
    if areas.len() == 0 {
        Seq::empty()
    } else if areas.last().kind == kind {
        of_kind(areas.drop_last(), kind).push(areas.last())
    } else {
        of_kind(areas.drop_last(), kind)
    }
}

/// The area that a request for `kind` selects: the first of that kind in
/// the order of the registry, or the fallback where there is none.
pub open spec fn spec_selected(areas: Seq<AreaView>, kind: AreaKind) -> AreaView {
    if of_kind(areas, kind).len() > 0 {
        of_kind(areas, kind)[0]
    } else {
        spec_fallback_area()
    }
}

/// A list without an area of the kind has an empty selection.
pub proof fn lemma_none_of_kind(areas: Seq<AreaView>, kind: AreaKind)
    requires
        forall|k: int| 0 <= k < areas.len() ==> areas[k].kind != kind,
    ensures
        of_kind(areas, kind).len() == 0,
        spec_selected(areas, kind) == spec_fallback_area(),
    decreases areas.len(),
{
    if areas.len() > 0 {
        let front = areas.drop_last();
        assert forall|k: int| 0 <= k < front.len() implies front[k].kind != kind by {
            assert(front[k] == areas[k]);
        }
        lemma_none_of_kind(front, kind);
        assert(areas.last() == areas[areas.len() - 1]);
    }
}

/// The selection is led by the first area of the kind in the order of the
/// list: ties are broken by that order.
pub proof fn lemma_first_of_kind(areas: Seq<AreaView>, kind: AreaKind, first: int)
    requires
        0 <= first < areas.len(),
        areas[first].kind == kind,
        forall|k: int| 0 <= k < first ==> areas[k].kind != kind,
    ensures
        of_kind(areas, kind).len() > 0,
        of_kind(areas, kind)[0] == areas[first],
        spec_selected(areas, kind) == areas[first],
    decreases areas.len(),
{
    let front = areas.drop_last();
    assert(areas.last() == areas[areas.len() - 1]);
    if first == areas.len() - 1 {
        assert forall|k: int| 0 <= k < front.len() implies front[k].kind != kind by {
            assert(front[k] == areas[k]);
        }
        lemma_none_of_kind(front, kind);
    } else {
        assert(front[first] == areas[first]);
        assert forall|k: int| 0 <= k < first implies front[k].kind != kind by {
            assert(front[k] == areas[k]);
        }
        lemma_first_of_kind(front, kind, first);
    }
}

/// The catalog of all areas, in the order they were configured.
#[derive(Debug)]
pub struct Areas(pub Vec<Area>);

impl View for Areas {
    type V = Seq<AreaView>;

    open spec fn view(&self) -> Seq<AreaView> {
        area_views(self.0@)
    }
}

/// The titles of a list of areas, each followed by a comma and a space.
pub open spec fn spec_listing(areas: Seq<AreaView>) -> Seq<char>
    decreases areas.len(),
{
    if areas.len() == 0 {
        Seq::empty()
    } else {
        spec_listing(areas.drop_last()) + areas.last().title + ", "@
    }
}

impl Areas {
    /// Builds the registry from what was loaded: the areas in their order,
    /// or none where loading failed.
    pub fn init(loaded: Option<Vec<Area>>) -> (areas: Areas)
        ensures
            match loaded {
                Some(list) => areas@ == area_views(list@),
                None => areas@.len() == 0,
            },
    {
        match loaded {
            Some(list) => Areas(list),
            None => Areas(Vec::new()),
        }
    }

    /// All areas, in registry order.
    pub fn all(&self) -> (list: &Vec<Area>)
        ensures
            area_views(list@) == self@,
    {
        &self.0
    }

    /// The areas of one kind, in registry order.
    pub fn find_by_kind(&self, kind: AreaKind) -> (found: Vec<Area>)
        ensures
            area_views(found@) == of_kind(self@, kind),
    {
        let mut found: Vec<Area> = Vec::new();
        let mut i: usize = 0;
        while i < self.0.len()
            invariant
                i <= self.0@.len(),
                area_views(found@) == of_kind(self@.take(i as int), kind),
            decreases self.0@.len() - i,
        {
            let ghost before = area_views(found@);
            assert(self@.take(i as int + 1).drop_last() == self@.take(i as int));
            assert(self@.take(i as int + 1).last() == self.0@[i as int]@);
            if self.0[i].kind == kind {
                found.push(self.0[i].clone());
                assert(area_views(found@) == before.push(self.0@[i as int]@));
            }
            i += 1;
        }
        assert(self@.take(i as int) == self@);
        found
    }

    /// The titles of the areas, each followed by a comma and a space.
    pub fn listing(&self) -> (text: String)
        ensures
            text@ == spec_listing(self@),
    {
        let mut text = String::new();
        let mut i: usize = 0;
        while i < self.0.len()
            invariant
                i <= self.0@.len(),
                text@ == spec_listing(self@.take(i as int)),
            decreases self.0@.len() - i,
        {
            assert(self@.take(i as int + 1).drop_last() == self@.take(i as int));
            assert(self@.take(i as int + 1).last() == self.0@[i as int]@);
            text.append(self.0[i].title.0.as_str());
            text.append(", ");
            i += 1;
        }
        assert(self@.take(i as int) == self@);
        text
    }
}

impl Default for Areas {
    fn default() -> (areas: Areas)
        ensures
            areas@.len() == 0,
    {
        Areas(Vec::new())
    }
}

/// The single active area.
#[derive(Debug)]
pub struct CurrentArea(pub Area);

impl View for CurrentArea {
    type V = AreaView;

    open spec fn view(&self) -> AreaView {
        self.0@
    }
}

impl Default for CurrentArea {
    fn default() -> (current: CurrentArea)
        ensures
            current@ == Area::spec_blank(),
    {
        CurrentArea(Area::default())
    }
}

/// The areas that matched the last selection.
#[derive(Debug)]
pub struct CurrentAreaSet(pub Vec<Area>);

impl View for CurrentAreaSet {
    type V = Seq<AreaView>;

    open spec fn view(&self) -> Seq<AreaView> {
        area_views(self.0@)
    }
}

impl Default for CurrentAreaSet {
    fn default() -> (set: CurrentAreaSet)
        ensures
            set@.len() == 0,
    {
        CurrentAreaSet(Vec::new())
    }
}

/// A request to make the first area of a kind the active one.
#[derive(Clone, Copy, Debug, PartialEq, Eq, Structural)]
pub struct SetArea(pub AreaKind);

/// Serves the selection requests in order. Each request filters the registry
/// by its kind; the first match becomes the active area, or the fallback
/// area where none matches. Without a request nothing changes.
pub fn evr_set_area(
    evr_set_area: &Vec<SetArea>,
    current_area: &mut CurrentArea,
    current_area_set: &mut CurrentAreaSet,
    areas: &Areas,
)
    ensures
        evr_set_area@.len() == 0 ==> final(current_area)@ == old(current_area)@,
        evr_set_area@.len() == 0 ==> final(current_area_set)@ == old(current_area_set)@,
        evr_set_area@.len() > 0 ==> final(current_area_set)@ == of_kind(
            areas@,
            evr_set_area@.last().0,
        ),
        evr_set_area@.len() > 0 ==> final(current_area)@ == spec_selected(
            areas@,
            evr_set_area@.last().0,
        ),
{
    let mut i: usize = 0;
    while i < evr_set_area.len()
        invariant
            i <= evr_set_area@.len(),
            i == 0 ==> current_area@ == old(current_area)@,
            i == 0 ==> current_area_set@ == old(current_area_set)@,
            i > 0 ==> current_area_set@ == of_kind(areas@, evr_set_area@[i - 1].0)
                && current_area@ == spec_selected(areas@, evr_set_area@[i - 1].0),
        decreases evr_set_area@.len() - i,
    {
        let kind = evr_set_area[i].0;
        current_area_set.0 = areas.find_by_kind(kind);
        if current_area_set.0.len() > 0 {
            current_area.0 = current_area_set.0[0].clone();
        } else {
            current_area.0 = Area::forest();
        }
        i += 1;
    }
}

} // verus!
