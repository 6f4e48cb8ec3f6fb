//! In-memory store of the three MRCM record families, keyed by the domain
//! concept or by the attribute concept.

use vstd::prelude::*;
use crate::sctid::SctId;
use crate::types::{Rf2Config, Rf2ErrorView, Rf2Result};
use crate::index::{counted, first_keys, picked, Index};
use crate::mrcm::{MrcmAttributeDomain, MrcmAttributeRange, MrcmDomain};
use crate::record::Rf2Record;
use crate::record::views_of;
use crate::parser::{
    csv_rows, first_failure, lemma_views_of_add, records_before_failure, Rf2Parser,
};

verus! {

/// The items of a log of entries, without their keys.
pub open spec fn items_of<T>(entries: Seq<(SctId, T)>) -> Seq<T> {
    Seq::new(entries.len(), |i: int| entries[i].1)
}

/// Whether an active attribute domain row couples its attribute with the
/// domain `domain`.
pub open spec fn couples(rows: Seq<MrcmAttributeDomain>, domain: SctId) -> bool {
    exists|i: int| 0 <= i < rows.len() && (#[trigger] rows[i]).domain_id == domain && rows[i].active
}

/// Whether an active attribute domain row marks its attribute as grouped.
pub open spec fn any_grouped(rows: Seq<MrcmAttributeDomain>) -> bool {
    exists|i: int| 0 <= i < rows.len() && (#[trigger] rows[i]).grouped && rows[i].active
}

/// The position of the first active range row at or after `from`, or -1.
pub open spec fn first_active(rows: Seq<MrcmAttributeRange>, from: int) -> int
    decreases rows.len() - from,
{
    if from < 0 || from >= rows.len() {
        -1
    } else if rows[from].active {
        from
    } else {
        first_active(rows, from + 1)
    }
}

/// The domains of the active rows, in order.
pub open spec fn active_domains(rows: Seq<MrcmAttributeDomain>) -> Seq<SctId>
    decreases rows.len(),
{
    if rows.len() == 0 {
        Seq::empty()
    } else if rows.last().active {
        active_domains(rows.drop_last()).push(rows.last().domain_id)
    } else {
        active_domains(rows.drop_last())
    }
}

/// Those of the attributes `keys` that an active row couples with the
/// domain `domain`, in order.
pub open spec fn attributes_in(
    keys: Seq<SctId>,
    entries: Seq<(SctId, MrcmAttributeDomain)>,
    domain: SctId,
) -> Seq<SctId>
    decreases keys.len(),
{
    if keys.len() == 0 {
        Seq::empty()
    } else if couples(picked(entries, keys.last()), domain) {
        attributes_in(keys.drop_last(), entries, domain).push(keys.last())
    } else {
        attributes_in(keys.drop_last(), entries, domain)
    }
}

/// Store of MRCM reference set data. Inactive rows are stored too; the
/// predicate queries pass over them.
pub struct MrcmStore {
    domains: Index<MrcmDomain>,
    attribute_domains: Index<MrcmAttributeDomain>,
    attribute_ranges: Index<MrcmAttributeRange>,
}

impl MrcmStore {
    /// The domain rows of the store, each under its domain concept, in the
    /// order of adding.
    pub closed spec fn domain_entries(&self) -> Seq<(SctId, MrcmDomain)> {
        self.domains.entries()
    }

    /// The attribute domain rows of the store, each under its attribute, in
    /// the order of adding.
    pub closed spec fn attribute_domain_entries(&self) -> Seq<(SctId, MrcmAttributeDomain)> {
        self.attribute_domains.entries()
    }

    /// The attribute range rows of the store, each under its attribute, in
    /// the order of adding.
    pub closed spec fn attribute_range_entries(&self) -> Seq<(SctId, MrcmAttributeRange)> {
        self.attribute_ranges.entries()
    }

    /// The domain rows of a domain concept.
    pub open spec fn domains_of(&self, concept_id: SctId) -> Seq<MrcmDomain> {
        picked(self.domain_entries(), concept_id)
    }

    /// The attribute domain rows of an attribute.
    pub open spec fn attribute_domains_of(&self, attribute_id: SctId) -> Seq<MrcmAttributeDomain> {
        picked(self.attribute_domain_entries(), attribute_id)
    }

    /// The attribute range rows of an attribute.
    pub open spec fn attribute_ranges_of(&self, attribute_id: SctId) -> Seq<MrcmAttributeRange> {
        picked(self.attribute_range_entries(), attribute_id)
    }

    /// The invariant of the store: every row stands under the component that
    /// it refers to.
    pub closed spec fn wf(&self) -> bool {
        &&& self.domains.wf()
        &&& self.attribute_domains.wf()
        &&& self.attribute_ranges.wf()
        &&& forall|i: int|
            0 <= i < self.domains.entries().len() ==> (#[trigger] self.domains.entries()[i]).0
                == self.domains.entries()[i].1.referenced_component_id
        &&& forall|i: int|
            0 <= i < self.attribute_domains.entries().len() ==> (
            #[trigger] self.attribute_domains.entries()[i]).0
                == self.attribute_domains.entries()[i].1.referenced_component_id
        &&& forall|i: int|
            0 <= i < self.attribute_ranges.entries().len() ==> (
            #[trigger] self.attribute_ranges.entries()[i]).0
                == self.attribute_ranges.entries()[i].1.referenced_component_id
    }

    /// Every row of the store stands under the component that it refers to.
    pub proof fn lemma_keys(&self)
        requires
            self.wf(),
        ensures
            forall|i: int|
                0 <= i < self.domain_entries().len() ==> (#[trigger] self.domain_entries()[i]).0
                    == self.domain_entries()[i].1.referenced_component_id,
            forall|i: int|
                0 <= i < self.attribute_domain_entries().len() ==> (
                #[trigger] self.attribute_domain_entries()[i]).0
                    == self.attribute_domain_entries()[i].1.referenced_component_id,
            forall|i: int|
                0 <= i < self.attribute_range_entries().len() ==> (
                #[trigger] self.attribute_range_entries()[i]).0
                    == self.attribute_range_entries()[i].1.referenced_component_id,
    {
    }

    /// An empty store.
    pub fn new() -> (r: Self)
        ensures
            r.wf(),
            r.domain_entries().len() == 0,
            r.attribute_domain_entries().len() == 0,
            r.attribute_range_entries().len() == 0,
    {
        MrcmStore {
            domains: Index::new(),
            attribute_domains: Index::new(),
            attribute_ranges: Index::new(),
        }
    }

    /// An empty store with room for the given numbers of keys.
    pub fn with_capacity(
        domain_count: usize,
        attribute_domain_count: usize,
        attribute_range_count: usize,
    ) -> (r: Self)
        ensures
            r.wf(),
            r.domain_entries().len() == 0,
            r.attribute_domain_entries().len() == 0,
            r.attribute_range_entries().len() == 0,
    {
        MrcmStore {
            domains: Index::with_capacity(domain_count),
            attribute_domains: Index::with_capacity(attribute_domain_count),
            attribute_ranges: Index::with_capacity(attribute_range_count),
        }
    }

    /// Adds a domain row under its domain concept.
    pub fn insert_domain(&mut self, domain: MrcmDomain)
        requires
            old(self).wf(),
        ensures
            final(self).wf(),
            final(self).domain_entries() == old(self).domain_entries().push(
                (domain.referenced_component_id, domain),
            ),
            final(self).attribute_domain_entries() == old(self).attribute_domain_entries(),
            final(self).attribute_range_entries() == old(self).attribute_range_entries(),
    {
        let key = domain.referenced_component_id;
        self.domains.push(key, domain);
    }

    /// Adds an attribute domain row under its attribute.
    pub fn insert_attribute_domain(&mut self, attribute_domain: MrcmAttributeDomain)
        requires
            old(self).wf(),
        ensures
            final(self).wf(),
            final(self).attribute_domain_entries() == old(self).attribute_domain_entries().push(
                (attribute_domain.referenced_component_id, attribute_domain),
            ),
            final(self).domain_entries() == old(self).domain_entries(),
            final(self).attribute_range_entries() == old(self).attribute_range_entries(),
    {
        let key = attribute_domain.referenced_component_id;
        self.attribute_domains.push(key, attribute_domain);
    }

    /// Adds an attribute range row under its attribute.
    pub fn insert_attribute_range(&mut self, attribute_range: MrcmAttributeRange)
        requires
            old(self).wf(),
        ensures
            final(self).wf(),
            final(self).attribute_range_entries() == old(self).attribute_range_entries().push(
                (attribute_range.referenced_component_id, attribute_range),
            ),
            final(self).domain_entries() == old(self).domain_entries(),
            final(self).attribute_domain_entries() == old(self).attribute_domain_entries(),
    {
        let key = attribute_range.referenced_component_id;
        self.attribute_ranges.push(key, attribute_range);
    }

    /// Adds domain rows, each under its domain concept, in order.
    pub fn insert_domains(&mut self, rows: Vec<MrcmDomain>)
        requires
            old(self).wf(),
        ensures
            final(self).wf(),
            items_of(final(self).domain_entries()) == items_of(old(self).domain_entries()) + rows@,
            final(self).attribute_domain_entries() == old(self).attribute_domain_entries(),
            final(self).attribute_range_entries() == old(self).attribute_range_entries(),
    {
        let ghost all = rows@;
        let ghost start = items_of(self.domain_entries());
        assert(start + all.take(0) =~= start);
        for row in it: rows
            invariant
                self.wf(),
                it.seq() == all,
                items_of(self.domain_entries()) == start + all.take(it.index()),
                self.attribute_domain_entries() == old(self).attribute_domain_entries(),
                self.attribute_range_entries() == old(self).attribute_range_entries(),
        {
            let ghost held = items_of(self.domain_entries());
            self.insert_domain(row);
            assert(items_of(self.domain_entries()) =~= held.push(row));
            assert(start + all.take(it.index() + 1) =~= (start + all.take(it.index())).push(row));
        }
        assert(all.take(all.len() as int) =~= all);
    }

    /// Loads the rows of a domain file, given as its bytes. Loading stops at
    /// the first row that fails, with its error; the rows before it are
    /// loaded. Where the header is refused, nothing is loaded.
    pub fn load_domains(&mut self, data: &[u8], config: Rf2Config) -> (r: Rf2Result<usize>)
        requires
            old(self).wf(),
        ensures
            final(self).wf(),
            final(self).attribute_domain_entries() == old(self).attribute_domain_entries(),
            final(self).attribute_range_entries() == old(self).attribute_range_entries(),
            match Rf2Parser::<MrcmDomain>::open_error(data@) {
                Some(e) => {
                    &&& r is Err
                    &&& r->Err_0@ == e
                    &&& final(self).domain_entries() == old(self).domain_entries()
                },
                None => {
                    let loaded = records_before_failure::<MrcmDomain>(
                        csv_rows(data@),
                        config.active_only,
                    );
                    &&& views_of(items_of(final(self).domain_entries())) == views_of(
                        items_of(old(self).domain_entries()),
                    ) + loaded
                    &&& match first_failure::<MrcmDomain>(csv_rows(data@), config.active_only) {
                        Some(e) => r is Err && r->Err_0@ == e,
                        None => r is Ok && r->Ok_0 == loaded.len(),
                    }
                },
            },
    {
        let parser = match Rf2Parser::<MrcmDomain>::from_reader(data, config) {
            Ok(parser) => parser,
            Err(e) => {
                return Err(e);
            },
        };
        let (rows, failure) = parser.parse_until_error();
        let count = rows.len();
        proof {
            lemma_views_of_add(items_of(self.domain_entries()), rows@);
        }
        self.insert_domains(rows);
        match failure {
            Some(e) => Err(e),
            None => Ok(count),
        }
    }

    /// Adds attribute domain rows, each under its attribute, in order.
    pub fn insert_attribute_domains(&mut self, rows: Vec<MrcmAttributeDomain>)
        requires
            old(self).wf(),
        ensures
            final(self).wf(),
            items_of(final(self).attribute_domain_entries()) == items_of(old(self).attribute_domain_entries()) + rows@,
            final(self).domain_entries() == old(self).domain_entries(),
            final(self).attribute_range_entries() == old(self).attribute_range_entries(),
    {
        let ghost all = rows@;
        let ghost start = items_of(self.attribute_domain_entries());
        assert(start + all.take(0) =~= start);
        for row in it: rows
            invariant
                self.wf(),
                it.seq() == all,
                items_of(self.attribute_domain_entries()) == start + all.take(it.index()),
                self.domain_entries() == old(self).domain_entries(),
                self.attribute_range_entries() == old(self).attribute_range_entries(),
        {
            let ghost held = items_of(self.attribute_domain_entries());
            self.insert_attribute_domain(row);
            assert(items_of(self.attribute_domain_entries()) =~= held.push(row));
            assert(start + all.take(it.index() + 1) =~= (start + all.take(it.index())).push(row));
        }
        assert(all.take(all.len() as int) =~= all);
    }

    /// Loads the rows of an attribute domain file, given as its bytes. Loading stops at
    /// the first row that fails, with its error; the rows before it are
    /// loaded. Where the header is refused, nothing is loaded.
    pub fn load_attribute_domains(&mut self, data: &[u8], config: Rf2Config) -> (r: Rf2Result<usize>)
        requires
            old(self).wf(),
        ensures
            final(self).wf(),
            final(self).domain_entries() == old(self).domain_entries(),
            final(self).attribute_range_entries() == old(self).attribute_range_entries(),
            match Rf2Parser::<MrcmAttributeDomain>::open_error(data@) {
                Some(e) => {
                    &&& r is Err
                    &&& r->Err_0@ == e
                    &&& final(self).attribute_domain_entries() == old(self).attribute_domain_entries()
                },
                None => {
                    let loaded = records_before_failure::<MrcmAttributeDomain>(
                        csv_rows(data@),
                        config.active_only,
                    );
                    &&& views_of(items_of(final(self).attribute_domain_entries())) == views_of(
                        items_of(old(self).attribute_domain_entries()),
                    ) + loaded
                    &&& match first_failure::<MrcmAttributeDomain>(csv_rows(data@), config.active_only) {
                        Some(e) => r is Err && r->Err_0@ == e,
                        None => r is Ok && r->Ok_0 == loaded.len(),
                    }
                },
            },
    {
        let parser = match Rf2Parser::<MrcmAttributeDomain>::from_reader(data, config) {
            Ok(parser) => parser,
            Err(e) => {
                return Err(e);
            },
        };
        let (rows, failure) = parser.parse_until_error();
        let count = rows.len();
        proof {
            lemma_views_of_add(items_of(self.attribute_domain_entries()), rows@);
        }
        self.insert_attribute_domains(rows);
        match failure {
            Some(e) => Err(e),
            None => Ok(count),
        }
    }

    /// Adds attribute range rows, each under its attribute, in order.
    pub fn insert_attribute_ranges(&mut self, rows: Vec<MrcmAttributeRange>)
        requires
            old(self).wf(),
        ensures
            final(self).wf(),
            items_of(final(self).attribute_range_entries()) == items_of(old(self).attribute_range_entries()) + rows@,
            final(self).domain_entries() == old(self).domain_entries(),
            final(self).attribute_domain_entries() == old(self).attribute_domain_entries(),
    {
        let ghost all = rows@;
        let ghost start = items_of(self.attribute_range_entries());
        assert(start + all.take(0) =~= start);
        for row in it: rows
            invariant
                self.wf(),
                it.seq() == all,
                items_of(self.attribute_range_entries()) == start + all.take(it.index()),
                self.domain_entries() == old(self).domain_entries(),
                self.attribute_domain_entries() == old(self).attribute_domain_entries(),
        {
            let ghost held = items_of(self.attribute_range_entries());
            self.insert_attribute_range(row);
            assert(items_of(self.attribute_range_entries()) =~= held.push(row));
            assert(start + all.take(it.index() + 1) =~= (start + all.take(it.index())).push(row));
        }
        assert(all.take(all.len() as int) =~= all);
    }

    /// Loads the rows of an attribute range file, given as its bytes. Loading stops at
    /// the first row that fails, with its error; the rows before it are
    /// loaded. Where the header is refused, nothing is loaded.
    pub fn load_attribute_ranges(&mut self, data: &[u8], config: Rf2Config) -> (r: Rf2Result<usize>)
        requires
            old(self).wf(),
        ensures
            final(self).wf(),
            final(self).domain_entries() == old(self).domain_entries(),
            final(self).attribute_domain_entries() == old(self).attribute_domain_entries(),
            match Rf2Parser::<MrcmAttributeRange>::open_error(data@) {
                Some(e) => {
                    &&& r is Err
                    &&& r->Err_0@ == e
                    &&& final(self).attribute_range_entries() == old(self).attribute_range_entries()
                },
                None => {
                    let loaded = records_before_failure::<MrcmAttributeRange>(
                        csv_rows(data@),
                        config.active_only,
                    );
                    &&& views_of(items_of(final(self).attribute_range_entries())) == views_of(
                        items_of(old(self).attribute_range_entries()),
                    ) + loaded
                    &&& match first_failure::<MrcmAttributeRange>(csv_rows(data@), config.active_only) {
                        Some(e) => r is Err && r->Err_0@ == e,
                        None => r is Ok && r->Ok_0 == loaded.len(),
                    }
                },
            },
    {
        let parser = match Rf2Parser::<MrcmAttributeRange>::from_reader(data, config) {
            Ok(parser) => parser,
            Err(e) => {
                return Err(e);
            },
        };
        let (rows, failure) = parser.parse_until_error();
        let count = rows.len();
        proof {
            lemma_views_of_add(items_of(self.attribute_range_entries()), rows@);
        }
        self.insert_attribute_ranges(rows);
        match failure {
            Some(e) => Err(e),
            None => Ok(count),
        }
    }

    /// What loading a file, where there is one, fails with, if it does: the
    /// error of its header, or the error of its first row that fails.
    pub open spec fn load_error<T: Rf2Record>(data: Option<&[u8]>) -> Option<Rf2ErrorView> {
        match data {
            None => None,
            Some(bytes) => match Rf2Parser::<T>::open_error(bytes@) {
                Some(e) => Some(e),
                None => first_failure::<T>(csv_rows(bytes@), true),
            },
        }
    }

    /// The active rows that loading a file gives, where there is one and
    /// its header is accepted: those before the first row that fails.
    pub open spec fn loaded_rows<T: Rf2Record>(data: Option<&[u8]>) -> Seq<T::V> {
        match data {
            None => Seq::empty(),
            Some(bytes) => match Rf2Parser::<T>::open_error(bytes@) {
                Some(_) => Seq::empty(),
                None => records_before_failure::<T>(csv_rows(bytes@), true),
            },
        }
    }

    /// A store of the active rows of the three MRCM files, each given as its
    /// bytes where it is there. The first file that fails, in the order
    /// domain, attribute domain, attribute range, fails the whole.
    pub fn from_files(
        domain: Option<&[u8]>,
        attribute_domain: Option<&[u8]>,
        attribute_range: Option<&[u8]>,
    ) -> (r: Rf2Result<Self>)
        ensures
            match r {
                Ok(store) => {
                    &&& store.wf()
                    &&& Self::load_error::<MrcmDomain>(domain) is None
                    &&& Self::load_error::<MrcmAttributeDomain>(attribute_domain) is None
                    &&& Self::load_error::<MrcmAttributeRange>(attribute_range) is None
                    &&& views_of(items_of(store.domain_entries())) == Self::loaded_rows::<
                        MrcmDomain,
                    >(domain)
                    &&& views_of(items_of(store.attribute_domain_entries()))
                        == Self::loaded_rows::<MrcmAttributeDomain>(attribute_domain)
                    &&& views_of(items_of(store.attribute_range_entries()))
                        == Self::loaded_rows::<MrcmAttributeRange>(attribute_range)
                },
                Err(e) => {
                    if Self::load_error::<MrcmDomain>(domain) is Some {
                        Self::load_error::<MrcmDomain>(domain) == Some(e@)
                    } else if Self::load_error::<MrcmAttributeDomain>(attribute_domain) is Some {
                        Self::load_error::<MrcmAttributeDomain>(attribute_domain) == Some(e@)
                    } else {
                        Self::load_error::<MrcmAttributeRange>(attribute_range) == Some(e@)
                    }
                },
            },
    {
        let mut store = MrcmStore::new();
        assert(views_of(items_of(store.domain_entries())) =~= Seq::<
            <MrcmDomain as View>::V,
        >::empty());
        assert(views_of(items_of(store.attribute_domain_entries())) =~= Seq::<
            <MrcmAttributeDomain as View>::V,
        >::empty());
        assert(views_of(items_of(store.attribute_range_entries())) =~= Seq::<
            <MrcmAttributeRange as View>::V,
        >::empty());
        match domain {
            Some(bytes) => {
                match store.load_domains(bytes, Rf2Config { active_only: true, batch_size: 10_000 }) {
                    Ok(_) => {},
                    Err(e) => {
                        return Err(e);
                    },
                }
            },
            None => {},
        }
        match attribute_domain {
            Some(bytes) => {
                match store.load_attribute_domains(
                    bytes,
                    Rf2Config { active_only: true, batch_size: 10_000 },
                ) {
                    Ok(_) => {},
                    Err(e) => {
                        return Err(e);
                    },
                }
            },
            None => {},
        }
        match attribute_range {
            Some(bytes) => {
                match store.load_attribute_ranges(
                    bytes,
                    Rf2Config { active_only: true, batch_size: 10_000 },
                ) {
                    Ok(_) => {},
                    Err(e) => {
                        return Err(e);
                    },
                }
            },
            None => {},
        }
        Ok(store)
    }

    /// The domain rows of a domain concept; `None` where there is none.
    pub fn get_domains_for_concept(&self, concept_id: SctId) -> (r: Option<&Vec<MrcmDomain>>)
        requires
            self.wf(),
        ensures
            match r {
                Some(rows) => rows@ == self.domains_of(concept_id) && rows@.len() > 0,
                None => self.domains_of(concept_id).len() == 0,
            },
    {
        self.domains.get(concept_id)
    }

    /// The attribute domain rows of an attribute; `None` where there is
    /// none.
    pub fn get_attribute_domains(&self, attribute_id: SctId) -> (r: Option<
        &Vec<MrcmAttributeDomain>,
    >)
        requires
            self.wf(),
        ensures
            match r {
                Some(rows) => rows@ == self.attribute_domains_of(attribute_id) && rows@.len() > 0,
                None => self.attribute_domains_of(attribute_id).len() == 0,
            },
    {
        self.attribute_domains.get(attribute_id)
    }

    /// The attribute range rows of an attribute; `None` where there is none.
    pub fn get_attribute_range(&self, attribute_id: SctId) -> (r: Option<&Vec<MrcmAttributeRange>>)
        requires
            self.wf(),
        ensures
            match r {
                Some(rows) => rows@ == self.attribute_ranges_of(attribute_id) && rows@.len() > 0,
                None => self.attribute_ranges_of(attribute_id).len() == 0,
            },
    {
        self.attribute_ranges.get(attribute_id)
    }

    /// Whether an active row allows the attribute in the domain.
    pub fn is_attribute_valid_for_domain(&self, attribute_id: SctId, domain_concept_id: SctId) -> (r:
        bool)
        requires
            self.wf(),
        ensures
            r == couples(self.attribute_domains_of(attribute_id), domain_concept_id),
    {
        match self.attribute_domains.get(attribute_id) {
            Some(rows) => coupled(rows, domain_concept_id),
            None => false,
        }
    }

    /// Whether an active row marks the attribute as grouped.
    pub fn is_attribute_grouped(&self, attribute_id: SctId) -> (r: bool)
        requires
            self.wf(),
        ensures
            r == any_grouped(self.attribute_domains_of(attribute_id)),
    {
        match self.attribute_domains.get(attribute_id) {
            Some(rows) => {
                let mut i: usize = 0;
                while i < rows.len()
                    invariant
                        i <= rows.len(),
                        rows@ == self.attribute_domains_of(attribute_id),
                        forall|k: int|
                            0 <= k < i ==> !((#[trigger] rows@[k]).grouped && rows@[k].active),
                    decreases rows.len() - i,
                {
                    if rows[i].grouped && rows[i].active {
                        return true;
                    }
                    i = i + 1;
                }
                false
            },
            None => false,
        }
    }

    /// The range constraint of the first active range row of the attribute;
    /// `None` where no row of it is active.
    pub fn get_range_constraint(&self, attribute_id: SctId) -> (r: Option<&str>)
        requires
            self.wf(),
        ensures
            ({
                let rows = self.attribute_ranges_of(attribute_id);
                let i = first_active(rows, 0);
                match r {
                    Some(text) => 0 <= i < rows.len() && text@ == rows[i].range_constraint@,
                    None => i == -1,
                }
            }),
    {
        match self.attribute_ranges.get(attribute_id) {
            Some(rows) => {
                let mut i: usize = 0;
                while i < rows.len()
                    invariant
                        i <= rows.len(),
                        rows@ == self.attribute_ranges_of(attribute_id),
                        first_active(rows@, 0) == first_active(rows@, i as int),
                    decreases rows.len() - i,
                {
                    if rows[i].active {
                        return Some(rows[i].range_constraint.as_str());
                    }
                    i = i + 1;
                }
                None
            },
            None => None,
        }
    }

    /// The domains in which an active row allows the attribute, in the order
    /// of the rows.
    pub fn get_valid_domains_for_attribute(&self, attribute_id: SctId) -> (r: Vec<SctId>)
        requires
            self.wf(),
        ensures
            r@ == active_domains(self.attribute_domains_of(attribute_id)),
    {
        let mut out: Vec<SctId> = Vec::new();
        match self.attribute_domains.get(attribute_id) {
            Some(rows) => {
                let mut i: usize = 0;
                assert(rows@.take(0) =~= Seq::<MrcmAttributeDomain>::empty());
                while i < rows.len()
                    invariant
                        i <= rows.len(),
                        out@ == active_domains(rows@.take(i as int)),
                    decreases rows.len() - i,
                {
                    assert(rows@.take(i + 1).drop_last() =~= rows@.take(i as int));
                    if rows[i].active {
                        out.push(rows[i].domain_id);
                    }
                    i = i + 1;
                }
                assert(rows@.take(rows.len() as int) =~= rows@);
            },
            None => {},
        }
        out
    }

    /// The attributes that an active row allows in the domain, in the order
    /// in which the attributes first got a row.
    pub fn get_valid_attributes_for_domain(&self, domain_concept_id: SctId) -> (r: Vec<SctId>)
        requires
            self.wf(),
        ensures
            r@ == attributes_in(
                first_keys(self.attribute_domain_entries()),
                self.attribute_domain_entries(),
                domain_concept_id,
            ),
    {
        let keys = self.attribute_domains.key_list();
        let mut out: Vec<SctId> = Vec::new();
        let mut i: usize = 0;
        assert(keys@.take(0) =~= Seq::<SctId>::empty());
        while i < keys.len()
            invariant
                i <= keys.len(),
                self.wf(),
                keys@ == first_keys(self.attribute_domain_entries()),
                out@ == attributes_in(
                    keys@.take(i as int),
                    self.attribute_domain_entries(),
                    domain_concept_id,
                ),
            decreases keys.len() - i,
        {
            assert(keys@.take(i + 1).drop_last() =~= keys@.take(i as int));
            let valid = match self.attribute_domains.get(keys[i]) {
                Some(rows) => coupled(rows, domain_concept_id),
                None => false,
            };
            if valid {
                out.push(keys[i]);
            }
            i = i + 1;
        }
        assert(keys@.take(keys.len() as int) =~= keys@);
        out
    }

    /// The number of domain concepts with a row.
    pub fn domain_count(&self) -> (r: usize)
        requires
            self.wf(),
        ensures
            r == first_keys(self.domain_entries()).len(),
    {
        self.domains.key_list().len()
    }

    /// The number of domain rows.
    pub fn total_domain_records(&self) -> (r: usize)
        requires
            self.wf(),
        ensures
            r == counted(self.domain_entries().len()),
    {
        self.domains.total()
    }

    /// The number of attributes with an attribute domain row.
    pub fn attribute_domain_count(&self) -> (r: usize)
        requires
            self.wf(),
        ensures
            r == first_keys(self.attribute_domain_entries()).len(),
    {
        self.attribute_domains.key_list().len()
    }

    /// The number of attribute domain rows.
    pub fn total_attribute_domain_records(&self) -> (r: usize)
        requires
            self.wf(),
        ensures
            r == counted(self.attribute_domain_entries().len()),
    {
        self.attribute_domains.total()
    }

    /// The number of attributes with an attribute range row.
    pub fn attribute_range_count(&self) -> (r: usize)
        requires
            self.wf(),
        ensures
            r == first_keys(self.attribute_range_entries()).len(),
    {
        self.attribute_ranges.key_list().len()
    }

    /// The number of attribute range rows.
    pub fn total_attribute_range_records(&self) -> (r: usize)
        requires
            self.wf(),
        ensures
            r == counted(self.attribute_range_entries().len()),
    {
        self.attribute_ranges.total()
    }

    /// Whether the store holds no row at all.
    pub fn is_empty(&self) -> (r: bool)
        requires
            self.wf(),
        ensures
            r == (self.domain_entries().len() == 0 && self.attribute_domain_entries().len() == 0
                && self.attribute_range_entries().len() == 0),
    {
        self.domains.is_empty() && self.attribute_domains.is_empty()
            && self.attribute_ranges.is_empty()
    }
}

/// Whether an active row couples its attribute with the domain.
fn coupled(rows: &Vec<MrcmAttributeDomain>, domain: SctId) -> (r: bool)
    ensures
        r == couples(rows@, domain),
{
    let mut i: usize = 0;
    while i < rows.len()
        invariant
            i <= rows.len(),
            forall|k: int|
                0 <= k < i ==> !((#[trigger] rows@[k]).domain_id == domain && rows@[k].active),
        decreases rows.len() - i,
    {
        if rows[i].domain_id == domain && rows[i].active {
            return true;
        }
        i = i + 1;
    }
    false
}

} // verus!
