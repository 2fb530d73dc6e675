//! Building templates and the catalog that holds them.
use vstd::prelude::*;

use crate::text::str_eq;

verus! {

/// A file on disk, named by its path.
#[verifier::external_type_specification]
#[verifier::external_body]
pub struct ExPathBuf(std::path::PathBuf);

/// Where a catalog's JSON text comes from.
pub enum CatalogSource {
    Embedded(&'static str),
    File(std::path::PathBuf),
}

/// Why a catalog could not be loaded.
#[derive(Debug)]
pub enum CatalogLoadError {
    InvalidJson(String),
    DuplicateTemplateId(String),
}

#[derive(Debug, Clone, Copy, PartialEq, Eq, Structural)]
pub enum BuildingCategory {
    ShopUtility,
    Attraction,
}

#[derive(Debug, Clone, Copy, PartialEq, Eq, Structural)]
pub enum VisitorBehavior {
    LongStay,
    ShortStay,
}

/// Whether a path may pass above or below the building.
#[derive(Debug, Clone, Copy, PartialEq, Eq, Structural)]
pub struct CrossingFlags {
    pub bridge_above_allowed: bool,
    pub tunnel_below_allowed: bool,
}

#[derive(Debug, Clone)]
pub struct ResourceFlow {
    pub resource_id: String,
    pub amount_per_tick: i32,
}

/// The description of a kind of building.
#[derive(Debug)]
pub struct BuildingTemplate {
    pub template_id: String,
    pub name: String,
    pub category: BuildingCategory,
    pub footprint: Vec<(i32, i32)>,
    pub cost: u32,
    pub visitor_behavior: VisitorBehavior,
    pub crossing_flags: CrossingFlags,
    pub construction_time_ticks: Option<u32>,
    /// How much each need is relieved by a visit, as `(need, amount)` pairs.
    pub needs_relief: Vec<(String, u32)>,
    pub resource_vector: Option<Vec<ResourceFlow>>,
    pub tags: Vec<String>,
    pub intensity: Option<u8>,
    pub cycle_capacity: Option<u32>,
    pub cycle_duration_ticks: Option<u32>,
    pub price_per_use: Option<u32>,
    pub unlock_biome: Option<String>,
}

/// Whether `ts[j]` repeats the id of an earlier template.
pub open spec fn repeats_earlier_id(ts: Seq<BuildingTemplate>, j: int) -> bool {
    exists|i: int| 0 <= i < j && #[trigger] ts[i].template_id@ == ts[j].template_id@
}

/// Whether no two templates share an id.
pub open spec fn ids_distinct(ts: Seq<BuildingTemplate>) -> bool {
    forall|i: int, j: int|
        0 <= i < ts.len() && 0 <= j < ts.len() && i != j ==> ts[i].template_id@ != ts[j].template_id@
}

/// Whether `ts[j]` is the first template whose id was already used.
pub open spec fn is_first_repeat(ts: Seq<BuildingTemplate>, j: int) -> bool {
    &&& 0 <= j < ts.len()
    &&& repeats_earlier_id(ts, j)
    &&& forall|k: int| 0 <= k < j ==> !repeats_earlier_id(ts, k)
}

/// The index of the first template of `ts` from `i` on whose id is `id`.
pub open spec fn index_of_id_from(ts: Seq<BuildingTemplate>, id: Seq<char>, i: int) -> Option<int>
    decreases ts.len() - i,
{
    if i < 0 || i >= ts.len() {
        None
    } else if ts[i].template_id@ == id {
        Some(i)
    } else {
        index_of_id_from(ts, id, i + 1)
    }
}

pub proof fn lemma_index_of_id_from(ts: Seq<BuildingTemplate>, id: Seq<char>, i: int)
    requires
        0 <= i,
    ensures
        match index_of_id_from(ts, id, i) {
            Some(j) => i <= j < ts.len() && ts[j].template_id@ == id && forall|k: int|
                i <= k < j ==> ts[k].template_id@ != id,
            None => forall|k: int| i <= k < ts.len() ==> ts[k].template_id@ != id,
        },
    decreases ts.len() - i,
{
    if i < ts.len() && ts[i].template_id@ != id {
        lemma_index_of_id_from(ts, id, i + 1);
    }
}

/// The templates of the game, each with its own id.
#[derive(Debug)]
pub struct BuildingCatalog {
    templates: Vec<BuildingTemplate>,
}

impl View for BuildingCatalog {
    type V = Seq<BuildingTemplate>;

    closed spec fn view(&self) -> Seq<BuildingTemplate> {
        self.templates@
    }
}

impl BuildingCatalog {
    /// The template with id `id`, if the catalog holds one.
    pub open spec fn spec_get(self, id: Seq<char>) -> Option<BuildingTemplate> {
        match index_of_id_from(self@, id, 0) {
            Some(i) => Some(self@[i]),
            None => None,
        }
    }

    /// An empty catalog.
    pub fn new() -> (c: Self)
        ensures
            c@ == Seq::<BuildingTemplate>::empty(),
    {
        BuildingCatalog { templates: Vec::new() }
    }

    /// Builds a catalog from templates in order, refusing the first template
    /// whose id was already used.
    pub fn from_templates(templates: Vec<BuildingTemplate>) -> (r: Result<Self, CatalogLoadError>)
        ensures
            r matches Ok(c) ==> ids_distinct(templates@) && c@ == templates@,
            r matches Err(CatalogLoadError::DuplicateTemplateId(id)) ==> exists|j: int|
                is_first_repeat(templates@, j) && id@ == templates@[j].template_id@,
            r is Ok || r matches Err(CatalogLoadError::DuplicateTemplateId(_)),
    {
        let ghost ts = templates@;
        let mut kept: Vec<BuildingTemplate> = Vec::new();
        for template in it: templates
            invariant
                it.seq() == ts,
                ts == templates@,
                kept@ == ts.take(it.index()),
                ids_distinct(kept@),
                forall|k: int| 0 <= k < it.index() ==> !repeats_earlier_id(ts, k),
        {
            let n = kept.len();
            let mut i: usize = 0;
            while i < n
                invariant
                    n == kept@.len(),
                    ts == templates@,
                    kept@ == ts.take(it.index()),
                    i <= n,
                    0 <= it.index() < ts.len(),
                    forall|k: int| 0 <= k < it.index() ==> !repeats_earlier_id(ts, k),
                    template == ts[it.index()],
                    forall|k: int| 0 <= k < i ==> kept@[k].template_id@ != template.template_id@,
                decreases n - i,
            {
                if kept[i].template_id == template.template_id {
                    proof {
                        assert(kept@.len() == it.index());
                        assert(ts.take(it.index())[i as int] == ts[i as int]);
                        assert(ts[i as int] == kept@[i as int]);
                        assert(repeats_earlier_id(ts, it.index()));
                        assert(is_first_repeat(ts, it.index()));
                        assert(template.template_id@ == ts[it.index()].template_id@);
                        assert(exists|j: int| is_first_repeat(ts, j) && template.template_id@ == ts[j].template_id@);
                    }
                    return Err(CatalogLoadError::DuplicateTemplateId(template.template_id));
                }
                i += 1;
            }
            proof {
                assert forall|k: int| 0 <= k < it.index() implies #[trigger] ts[k].template_id@
                    != ts[it.index()].template_id@ by {
                    assert(ts[k] == kept@[k]);
                }
                assert(!repeats_earlier_id(ts, it.index()));
            }
            kept.push(template);
            proof {
                assert(kept@ =~= ts.take(it.index() + 1));
            }
        }
        proof {
            assert(kept@ =~= ts);
        }
        Ok(BuildingCatalog { templates: kept })
    }

    /// The template with id `template_id`, if any.
    pub fn get(&self, template_id: &str) -> (r: Option<&BuildingTemplate>)
        ensures
            match self.spec_get(template_id@) {
                Some(t) => r == Some(&t),
                None => r is None,
            },
    {
        let n = self.templates.len();
        let mut i: usize = 0;
        proof {
            lemma_index_of_id_from(self@, template_id@, 0);
        }
        while i < n
            invariant
                n == self@.len(),
                i <= n,
                forall|k: int| 0 <= k < i ==> self@[k].template_id@ != template_id@,
                index_of_id_from(self@, template_id@, 0) == index_of_id_from(self@, template_id@, i as int),
            decreases n - i,
        {
            if str_eq(self.templates[i].template_id.as_str(), template_id) {
                return Some(&self.templates[i]);
            }
            i += 1;
        }
        None
    }
}

/// In a catalog whose ids are distinct, as every catalog built from
/// templates is, looking up a template's id finds that template.
pub proof fn lemma_get_finds_each_template(catalog: BuildingCatalog, j: int)
    requires
        ids_distinct(catalog@),
        0 <= j < catalog@.len(),
    ensures
        catalog.spec_get(catalog@[j].template_id@) == Some(catalog@[j]),
{
    lemma_index_of_id_from(catalog@, catalog@[j].template_id@, 0);
}

} // verus!
