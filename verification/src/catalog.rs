//! The reference catalog: defect nodes and types, priced services, and the
//! links from a defect type to the services that repair it.

use vstd::prelude::*;
use vstd::string::StringExecFns;
use crate::decimal::Decimal;
use crate::error::EngineError;
use crate::lookup::{find, first_index, has_key, highest_key, top_key, Keyed};
use crate::records::{OrderWork, OrderWorkView};
use crate::text::{blank, copy_text, is_blank};
use crate::records::{opt_chars, views};

verus! {

/// A subsystem of the vehicle under which defect types are grouped.
#[derive(Clone, Debug)]
pub struct DefectNode {
    pub id: i32,
    pub name: String,
    pub description: Option<String>,
}

/// A defect node as a mathematical value.
pub struct DefectNodeView {
    pub id: i32,
    pub name: Seq<char>,
    pub description: Option<Seq<char>>,
}

impl View for DefectNode {
    type V = DefectNodeView;

    open spec fn view(&self) -> DefectNodeView {
        DefectNodeView { id: self.id, name: self.name@, description: opt_chars(self.description) }
    }
}

impl Keyed for DefectNode {
    open spec fn key_of(v: DefectNodeView) -> i32 {
        v.id
    }

    fn key(&self) -> (k: i32) {
        self.id
    }
}

/// A specific fault under a node.
#[derive(Clone, Debug)]
pub struct DefectType {
    pub id: i32,
    pub node_id: i32,
    pub name: String,
    pub description: Option<String>,
}

/// A defect type as a mathematical value.
pub struct DefectTypeView {
    pub id: i32,
    pub node_id: i32,
    pub name: Seq<char>,
    pub description: Option<Seq<char>>,
}

impl View for DefectType {
    type V = DefectTypeView;

    open spec fn view(&self) -> DefectTypeView {
        DefectTypeView {
            id: self.id,
            node_id: self.node_id,
            name: self.name@,
            description: opt_chars(self.description),
        }
    }
}

impl Keyed for DefectType {
    open spec fn key_of(v: DefectTypeView) -> i32 {
        v.id
    }

    fn key(&self) -> (k: i32) {
        self.id
    }
}

/// A priced, named labor operation.
#[derive(Clone, Debug)]
pub struct Service {
    pub id: i32,
    pub name: String,
    pub base_price: Decimal,
    pub norm_hours: Decimal,
}

/// A service as a mathematical value.
pub struct ServiceView {
    pub id: i32,
    pub name: Seq<char>,
    pub base_price: Decimal,
    pub norm_hours: Decimal,
}

impl View for Service {
    type V = ServiceView;

    open spec fn view(&self) -> ServiceView {
        ServiceView {
            id: self.id,
            name: self.name@,
            base_price: self.base_price,
            norm_hours: self.norm_hours,
        }
    }
}

impl Keyed for Service {
    open spec fn key_of(v: ServiceView) -> i32 {
        v.id
    }

    fn key(&self) -> (k: i32) {
        self.id
    }
}

/// One row of the link table between defect types and services.
#[derive(Clone, Copy, Debug, PartialEq, Eq, Structural, Hash)]
pub struct ServiceLink {
    pub defect_type_id: i32,
    pub service_id: i32,
}

/// What recording one defect type creates: the texts of the defect and
/// the snapshot of the work that answers it.
#[derive(Clone, Debug)]
pub struct DiagnosisDraft {
    pub defect_type_id: i32,
    pub description: String,
    pub comment: Option<String>,
    pub service_id: Option<i32>,
    pub work_name: String,
    pub price: Decimal,
    pub norm_hours: Decimal,
}

/// A diagnosis draft as a mathematical value.
pub struct DiagnosisDraftView {
    pub defect_type_id: i32,
    pub description: Seq<char>,
    pub comment: Option<Seq<char>>,
    pub service_id: Option<i32>,
    pub work_name: Seq<char>,
    pub price: Decimal,
    pub norm_hours: Decimal,
}

impl View for DiagnosisDraft {
    type V = DiagnosisDraftView;

    open spec fn view(&self) -> DiagnosisDraftView {
        DiagnosisDraftView {
            defect_type_id: self.defect_type_id,
            description: self.description@,
            comment: opt_chars(self.comment),
            service_id: self.service_id,
            work_name: self.work_name@,
            price: self.price,
            norm_hours: self.norm_hours,
        }
    }
}

/// The catalog as the engine reads it.
#[derive(Clone, Debug)]
pub struct Catalog {
    pub nodes: Vec<DefectNode>,
    pub defect_types: Vec<DefectType>,
    pub services: Vec<Service>,
    pub links: Vec<ServiceLink>,
}

/// The catalog as a mathematical value: its four tables as sequences.
pub struct CatalogView {
    pub nodes: Seq<DefectNodeView>,
    pub defect_types: Seq<DefectTypeView>,
    pub services: Seq<ServiceView>,
    pub links: Seq<ServiceLink>,
}

impl View for Catalog {
    type V = CatalogView;

    open spec fn view(&self) -> CatalogView {
        CatalogView {
            nodes: views(self.nodes@),
            defect_types: views(self.defect_types@),
            services: views(self.services@),
            links: self.links@,
        }
    }
}

/// The description of a defect: the node's name, a colon and a space, and
/// the name of the defect type.
pub open spec fn defect_title(node: Seq<char>, name: Seq<char>) -> Seq<char> {
    node + seq![':', ' '] + name
}

impl CatalogView {
    /// The first defect type with this id.
    pub open spec fn defect_type(self, id: i32) -> Option<DefectTypeView> {
        match first_index(self.defect_types, has_key::<DefectType>(id)) {
            Some(i) => Some(self.defect_types[i]),
            None => None,
        }
    }

    /// The first node with this id.
    pub open spec fn node(self, id: i32) -> Option<DefectNodeView> {
        match first_index(self.nodes, has_key::<DefectNode>(id)) {
            Some(i) => Some(self.nodes[i]),
            None => None,
        }
    }

    /// The link table holds the pair.
    pub open spec fn is_linked(self, defect_type_id: i32, service_id: i32) -> bool {
        self.links.contains(ServiceLink { defect_type_id, service_id })
    }

    /// The service at position `i` is linked to the defect type.
    pub open spec fn is_candidate(self, defect_type_id: i32, i: int) -> bool {
        0 <= i < self.services.len() && self.is_linked(defect_type_id, self.services[i].id)
    }

    /// The service at position `i` is the linked service with the lowest
    /// id, and the earliest such row.
    pub open spec fn is_preferred(self, defect_type_id: i32, i: int) -> bool {
        &&& self.is_candidate(defect_type_id, i)
        &&& forall|j: int| #[trigger]
            self.is_candidate(defect_type_id, j) ==> self.services[i].id < self.services[j].id || (
            self.services[i].id == self.services[j].id && i <= j)
    }

    /// The service that answers a defect type: of the linked services the
    /// one with the lowest id, or none where no service is linked.
    pub open spec fn linked_service(self, defect_type_id: i32) -> Option<ServiceView> {
        if exists|i: int| self.is_preferred(defect_type_id, i) {
            Some(self.services[choose|i: int| self.is_preferred(defect_type_id, i)])
        } else {
            None
        }
    }

    /// What recording the defect type creates, or `None` where the type or
    /// its node has no catalog entry.
    pub open spec fn draft(self, defect_type_id: i32) -> Option<DiagnosisDraftView> {
        match self.defect_type(defect_type_id) {
            None => None,
            Some(t) => match self.node(t.node_id) {
                None => None,
                Some(n) => {
                    let title = defect_title(n.name, t.name);
                    match self.linked_service(defect_type_id) {
                        Some(s) => Some(
                            DiagnosisDraftView {
                                defect_type_id,
                                description: title,
                                comment: t.description,
                                service_id: Some(s.id),
                                work_name: s.name,
                                price: s.base_price,
                                norm_hours: s.norm_hours,
                            },
                        ),
                        None => Some(
                            DiagnosisDraftView {
                                defect_type_id,
                                description: title,
                                comment: t.description,
                                service_id: None,
                                work_name: title,
                                price: Decimal { hundredths: 0 },
                                norm_hours: Decimal { hundredths: 100 },
                            },
                        ),
                    }
                },
            },
        }
    }
}

/// The predicate "is not a link of the service `service_id`".
pub open spec fn of_other_service(service_id: i32) -> spec_fn(ServiceLink) -> bool {
    |l: ServiceLink| l.service_id != service_id
}

/// Some work of the table was created from the service.
pub open spec fn service_used(works: Seq<OrderWorkView>, service_id: i32) -> bool {
    exists|i: int| 0 <= i < works.len() && (#[trigger] works[i]).service_id == Some(service_id)
}

impl CatalogView {
    /// The position of the first service with this id.
    pub open spec fn service_slot(self, id: i32) -> Option<int> {
        first_index(self.services, has_key::<Service>(id))
    }

    /// The id that a new service gets, or why it is refused: a blank name,
    /// or no identifier left.
    pub open spec fn new_service_verdict(self, name: Seq<char>) -> Result<i32, EngineError> {
        if is_blank(name) {
            Err(EngineError::ValidationError)
        } else if highest_key::<Service>(self.services) == i32::MAX {
            Err(EngineError::PersistenceError)
        } else {
            Ok((highest_key::<Service>(self.services) + 1) as i32)
        }
    }

    /// The catalog after a request to add a service.
    pub open spec fn after_add_service(
        self,
        name: Seq<char>,
        base_price: Decimal,
        norm_hours: Decimal,
    ) -> CatalogView {
        match self.new_service_verdict(name) {
            Err(_) => self,
            Ok(id) => CatalogView {
                services: self.services.push(ServiceView { id, name, base_price, norm_hours }),
                ..self
            },
        }
    }

    /// Whether a service may be changed: its new name must not be blank
    /// and the service must exist.
    pub open spec fn update_verdict(self, id: i32, name: Seq<char>) -> Result<(), EngineError> {
        if is_blank(name) {
            Err(EngineError::ValidationError)
        } else if self.service_slot(id) is None {
            Err(EngineError::NotFound)
        } else {
            Ok(())
        }
    }

    /// The catalog after a request to change a service.
    pub open spec fn after_update_service(
        self,
        id: i32,
        name: Seq<char>,
        base_price: Decimal,
        norm_hours: Decimal,
    ) -> CatalogView {
        match self.update_verdict(id, name) {
            Err(_) => self,
            Ok(_) => CatalogView {
                services: self.services.update(
                    self.service_slot(id)->0,
                    ServiceView { id, name, base_price, norm_hours },
                ),
                ..self
            },
        }
    }

    /// Whether a service may be removed: no work may refer to it, and it
    /// must exist.
    pub open spec fn removal_verdict(self, id: i32, in_use: bool) -> Result<(), EngineError> {
        if in_use {
            Err(EngineError::ValidationError)
        } else if self.service_slot(id) is None {
            Err(EngineError::NotFound)
        } else {
            Ok(())
        }
    }

    /// The catalog after a request to remove a service.
    pub open spec fn after_remove_service(self, id: i32, in_use: bool) -> CatalogView {
        match self.removal_verdict(id, in_use) {
            Err(_) => self,
            Ok(_) => CatalogView { services: self.services.remove(self.service_slot(id)->0), ..self },
        }
    }

    /// The link table once the links of a service are replaced: the links
    /// of the other services, then one link for each defect type given.
    pub open spec fn relinked(self, service_id: i32, defect_type_ids: Seq<i32>) -> Seq<ServiceLink> {
        self.links.filter(of_other_service(service_id)) + Seq::new(
            defect_type_ids.len(),
            |k: int| ServiceLink { defect_type_id: defect_type_ids[k], service_id },
        )
    }
}

/// Whether some work of the table was created from the service.
pub fn service_in_use(works: &Vec<OrderWork>, service_id: i32) -> (r: bool)
    ensures
        r == service_used(crate::records::views(works@), service_id),
{
    let ghost s = crate::records::views(works@);
    let mut i: usize = 0;
    while i < works.len()
        invariant
            i <= works.len(),
            s == crate::records::views(works@),
            forall|j: int| 0 <= j < i ==> (#[trigger] s[j]).service_id != Some(service_id),
        decreases works.len() - i,
    {
        assert(s[i as int] == works@[i as int]@);
        let used = match works[i].service_id {
            Some(id) => id == service_id,
            None => false,
        };
        if used {
            return true;
        }
        i += 1;
    }
    false
}

/// Writes the description of a defect.
pub fn make_title(node: &str, name: &str) -> (r: String)
    ensures
        r@ == defect_title(node@, name@),
{
    let mut title = node.to_owned();
    title.append(": ");
    title.append(name);
    proof {
        reveal_strlit(": ");
        assert(": "@ =~= seq![':', ' ']);
    }
    title
}

impl Catalog {
    /// The first defect type with this id.
    pub fn find_defect_type(&self, id: i32) -> (r: Option<&DefectType>)
        ensures
            match r {
                Some(t) => self@.defect_type(id) == Some(t@),
                None => self@.defect_type(id) is None,
            },
    {
        match find(&self.defect_types, id) {
            Some(i) => Some(&self.defect_types[i]),
            None => None,
        }
    }

    /// The first node with this id.
    pub fn find_node(&self, id: i32) -> (r: Option<&DefectNode>)
        ensures
            match r {
                Some(n) => self@.node(id) == Some(n@),
                None => self@.node(id) is None,
            },
    {
        match find(&self.nodes, id) {
            Some(i) => Some(&self.nodes[i]),
            None => None,
        }
    }

    /// Whether the link table holds the pair.
    pub fn has_link(&self, defect_type_id: i32, service_id: i32) -> (r: bool)
        ensures
            r == self@.is_linked(defect_type_id, service_id),
    {
        let mut k: usize = 0;
        while k < self.links.len()
            invariant
                k <= self.links.len(),
                forall|j: int|
                    0 <= j < k ==> self.links@[j] != (ServiceLink { defect_type_id, service_id }),
            decreases self.links.len() - k,
        {
            let link = self.links[k];
            if link.defect_type_id == defect_type_id && link.service_id == service_id {
                assert(self.links@[k as int] == (ServiceLink { defect_type_id, service_id }));
                return true;
            }
            k += 1;
        }
        false
    }

    /// The service that answers a defect type, if one is linked.
    pub fn linked_service(&self, defect_type_id: i32) -> (r: Option<&Service>)
        ensures
            match r {
                Some(s) => self@.linked_service(defect_type_id) == Some(s@),
                None => self@.linked_service(defect_type_id) is None,
            },
    {
        let ghost cat = self@;
        let mut best: Option<usize> = None;
        let mut i: usize = 0;
        while i < self.services.len()
            invariant
                i <= self.services.len(),
                cat == self@,
                match best {
                    Some(b) => {
                        &&& b < i
                        &&& cat.is_candidate(defect_type_id, b as int)
                        &&& forall|j: int|
                            0 <= j < i && #[trigger] cat.is_candidate(defect_type_id, j)
                                ==> cat.services[b as int].id < cat.services[j].id || (
                            cat.services[b as int].id == cat.services[j].id && b <= j)
                    },
                    None => forall|j: int|
                        0 <= j < i ==> !#[trigger] cat.is_candidate(defect_type_id, j),
                },
            decreases self.services.len() - i,
        {
            assert(cat.services[i as int] == self.services@[i as int]@);
            let linked = self.has_link(defect_type_id, self.services[i].id);
            if linked {
                match best {
                    Some(b) => {
                        assert(cat.services[b as int] == self.services@[b as int]@);
                        if self.services[i].id < self.services[b].id {
                            best = Some(i);
                        }
                    },
                    None => {
                        best = Some(i);
                    },
                }
            }
            i += 1;
        }
        match best {
            Some(b) => {
                proof {
                    assert(cat.is_preferred(defect_type_id, b as int));
                    let c = choose|i: int| cat.is_preferred(defect_type_id, i);
                    assert(cat.is_preferred(defect_type_id, c));
                    assert(cat.is_candidate(defect_type_id, c));
                    assert(cat.is_candidate(defect_type_id, b as int));
                    assert(c == b);
                    assert(cat.services[b as int] == self.services@[b as int]@);
                }
                Some(&self.services[b])
            },
            None => {
                proof {
                    if exists|i: int| cat.is_preferred(defect_type_id, i) {
                        let c = choose|i: int| cat.is_preferred(defect_type_id, i);
                        assert(cat.is_candidate(defect_type_id, c));
                    }
                }
                None
            },
        }
    }

    /// Resolves one defect type to the defect and work that recording it
    /// creates; `None` where the type or its node is not in the catalog.
    pub fn draft_for(&self, defect_type_id: i32) -> (r: Option<DiagnosisDraft>)
        ensures
            match r {
                Some(d) => self@.draft(defect_type_id) == Some(d@),
                None => self@.draft(defect_type_id) is None,
            },
    {
        let defect_type = match self.find_defect_type(defect_type_id) {
            Some(t) => t,
            None => {
                return None;
            },
        };
        let node = match self.find_node(defect_type.node_id) {
            Some(n) => n,
            None => {
                return None;
            },
        };
        let description = make_title(node.name.as_str(), defect_type.name.as_str());
        let comment = copy_text(&defect_type.description);
        match self.linked_service(defect_type_id) {
            Some(service) => Some(
                DiagnosisDraft {
                    defect_type_id,
                    description,
                    comment,
                    service_id: Some(service.id),
                    work_name: service.name.clone(),
                    price: service.base_price,
                    norm_hours: service.norm_hours,
                },
            ),
            None => {
                let work_name = description.clone();
                Some(
                    DiagnosisDraft {
                        defect_type_id,
                        description,
                        comment,
                        service_id: None,
                        work_name,
                        price: Decimal::zero(),
                        norm_hours: Decimal::one(),
                    },
                )
            },
        }
    }
    /// Adds a service under the next free id. A blank name is refused.
    pub fn add_service(&mut self, name: String, base_price: Decimal, norm_hours: Decimal) -> (r:
        Result<i32, EngineError>)
        ensures
            r == old(self)@.new_service_verdict(name@),
            final(self)@ == old(self)@.after_add_service(name@, base_price, norm_hours),
    {
        if blank(name.as_str()) {
            return Err(EngineError::ValidationError);
        }
        let top = top_key(&self.services);
        if top == i32::MAX {
            return Err(EngineError::PersistenceError);
        }
        let id = top + 1;
        let ghost before = self@;
        self.services.push(Service { id, name, base_price, norm_hours });
        proof {
            assert(self@.services =~= before.after_add_service(
                name@,
                base_price,
                norm_hours,
            ).services);
        }
        Ok(id)
    }

    /// Changes the name, price and norm hours of a service.
    pub fn update_service(
        &mut self,
        id: i32,
        name: String,
        base_price: Decimal,
        norm_hours: Decimal,
    ) -> (r: Result<(), EngineError>)
        ensures
            r == old(self)@.update_verdict(id, name@),
            final(self)@ == old(self)@.after_update_service(id, name@, base_price, norm_hours),
    {
        if blank(name.as_str()) {
            return Err(EngineError::ValidationError);
        }
        let i = match find(&self.services, id) {
            Some(i) => i,
            None => {
                return Err(EngineError::NotFound);
            },
        };
        let ghost before = self@;
        self.services[i] = Service { id, name, base_price, norm_hours };
        proof {
            assert(self@.services =~= before.after_update_service(
                id,
                name@,
                base_price,
                norm_hours,
            ).services);
        }
        Ok(())
    }

    /// Removes a service. `in_use` says whether a work refers to it: such a
    /// service stays.
    pub fn remove_service(&mut self, id: i32, in_use: bool) -> (r: Result<(), EngineError>)
        ensures
            r == old(self)@.removal_verdict(id, in_use),
            final(self)@ == old(self)@.after_remove_service(id, in_use),
    {
        if in_use {
            return Err(EngineError::ValidationError);
        }
        let i = match find(&self.services, id) {
            Some(i) => i,
            None => {
                return Err(EngineError::NotFound);
            },
        };
        let ghost before = self@;
        self.services.remove(i);
        proof {
            assert(self@.services =~= before.after_remove_service(id, in_use).services);
        }
        Ok(())
    }

    /// Replaces the links of a service by one link for each defect type
    /// given. Returns the number of defect types linked.
    pub fn relink_service(&mut self, service_id: i32, defect_type_ids: &Vec<i32>) -> (r: usize)
        ensures
            r == defect_type_ids@.len(),
            final(self)@ == (CatalogView {
                links: old(self)@.relinked(service_id, defect_type_ids@),
                ..old(self)@
            }),
    {
        let ghost before = self@;
        let ghost p = of_other_service(service_id);
        let mut kept: Vec<ServiceLink> = Vec::new();
        let mut i: usize = 0;
        proof {
            reveal(Seq::filter);
            assert(before.links.take(0).filter(p) =~= Seq::empty());
        }
        while i < self.links.len()
            invariant
                i <= self.links.len(),
                self@ == before,
                p == of_other_service(service_id),
                kept@ == before.links.take(i as int).filter(p),
            decreases self.links.len() - i,
        {
            proof {
                assert(before.links.take(i as int + 1) =~= before.links.take(i as int).push(
                    before.links[i as int],
                ));
                before.links.take(i as int).lemma_filter_push(before.links[i as int], p);
            }
            let link = self.links[i];
            if link.service_id != service_id {
                kept.push(link);
            }
            i += 1;
        }
        proof {
            assert(before.links.take(i as int) =~= before.links);
        }
        let ghost base = kept@;
        let mut k: usize = 0;
        while k < defect_type_ids.len()
            invariant
                k <= defect_type_ids.len(),
                kept@ == base + Seq::new(
                    k as nat,
                    |j: int| ServiceLink { defect_type_id: defect_type_ids@[j], service_id },
                ),
            decreases defect_type_ids.len() - k,
        {
            kept.push(ServiceLink { defect_type_id: defect_type_ids[k], service_id });
            proof {
                assert(kept@ =~= base + Seq::new(
                    (k + 1) as nat,
                    |j: int| ServiceLink { defect_type_id: defect_type_ids@[j], service_id },
                ));
            }
            k += 1;
        }
        self.links = kept;
        proof {
            assert(self@.links =~= before.relinked(service_id, defect_type_ids@));
        }
        defect_type_ids.len()
    }
}

} // verus!
