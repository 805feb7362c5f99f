//! The append-only table of log call sites, and the decoders the consumer
//! takes out of it when it freezes the table.
use crate::codec::{decode_record_body, parse_record_body, views, DecoderView, LoggedValue};
use crate::level::LogLevel;
use vstd::prelude::*;

verus! {

/// The decoder of one call site's records. The site's generated code encodes
/// its arguments in a fixed order, so knowing how many follow the id is
/// enough to decode and measure a record. The decoder learns the site's id
/// when the registry is frozen, and refuses records of any other site.
pub struct RawFunc {
    site: Option<usize>,
    arity: usize,
}

impl RawFunc {
    /// The number of arguments in each record of the call site.
    pub closed spec fn arity(&self) -> nat {
        self.arity as nat
    }

    /// The id of the call site the decoder belongs to, once registered.
    pub closed spec fn site(&self) -> Option<nat> {
        match self.site {
            Some(s) => Some(s as nat),
            None => None,
        }
    }

    /// The decoder as the codec sees it.
    pub open spec fn view(&self) -> DecoderView {
        DecoderView { site: self.site(), arity: self.arity() }
    }

    /// The decoder of a not yet registered call site whose records carry
    /// `arity` arguments.
    pub fn new(arity: usize) -> (r: Self)
        ensures
            r.arity() == arity,
            r.site() is None,
    {
        RawFunc { site: None, arity }
    }

    /// The id of the call site the decoder belongs to, once registered.
    pub fn site_id(&self) -> (r: Option<usize>)
        ensures
            r matches Some(s) ==> self.site() == Some(s as nat),
            r is None <==> self.site() is None,
    {
        self.site
    }

    /// The number of arguments in each record of the call site.
    pub fn arg_count(&self) -> (r: usize)
        ensures
            r == self.arity(),
    {
        self.arity
    }

    /// Decodes the record at the start of `x`: its arguments and the number of
    /// bytes it takes, its leading id included. Fails when the decoder belongs
    /// to no site yet, when the id names another site, or when the payload does
    /// not decode.
    pub fn invoke(&self, x: &[u8]) -> (r: Option<(Vec<LoggedValue>, usize)>)
        ensures
            r is Some <==> parse_record_body(x@, self.view()) is Some,
            r matches Some((vs, n)) ==> parse_record_body(x@, self.view()) == Some((views(vs@), n as nat)),
    {
        match self.site {
            Some(site) => decode_record_body(x, site, self.arity),
            None => None,
        }
    }
}

/// A registered call site.
pub struct LogLineSpec {
    pub level: LogLevel,
    /// The format template of the site's text.
    pub fmt: &'static str,
    /// The unique name of the site in the source.
    pub log_ident: &'static str,
    /// The site's decoder, until the consumer takes it out.
    pub fmt_fn: Option<RawFunc>,
}

/// The table of registered call sites; a site's id is its index.
pub struct CallSiteRegistry {
    sites: Vec<LogLineSpec>,
}

impl View for CallSiteRegistry {
    type V = Seq<LogLineSpec>;

    closed spec fn view(&self) -> Seq<LogLineSpec> {
        self.sites@
    }
}

/// `after` is `before` with `spec` registered under the id `id`.
pub open spec fn registered(before: Seq<LogLineSpec>, spec: LogLineSpec, after: Seq<LogLineSpec>, id: nat) -> bool {
    &&& id == before.len()
    &&& after == before.push(spec)
}

/// The sites of `before`, with every decoder taken out.
pub open spec fn frozen(before: Seq<LogLineSpec>, after: Seq<LogLineSpec>) -> bool {
    &&& after.len() == before.len()
    &&& forall|i: int| 0 <= i < before.len() ==> {
        &&& (#[trigger] after[i]).level == before[i].level
        &&& after[i].fmt == before[i].fmt
        &&& after[i].log_ident == before[i].log_ident
        &&& after[i].fmt_fn is None
    }
}

/// Why the registry could not be frozen.
#[derive(Clone, Copy, Debug, PartialEq, Eq, Structural)]
pub enum FreezeError {
    /// The site with this id has no decoder left to take.
    MissingDecoder(usize),
}

impl CallSiteRegistry {
    /// An empty registry.
    pub fn new() -> (r: Self)
        ensures
            r@ == Seq::<LogLineSpec>::empty(),
    {
        CallSiteRegistry { sites: Vec::new() }
    }

    /// The number of registered sites.
    pub fn len(&self) -> (r: usize)
        ensures
            r == self@.len(),
    {
        self.sites.len()
    }

    /// The site registered under `id`.
    pub fn get(&self, id: usize) -> (r: &LogLineSpec)
        requires
            id < self@.len(),
        ensures
            *r == self@[id as int],
    {
        &self.sites[id]
    }

    /// Takes every site's decoder out, in id order, so that the decoder of the
    /// site with id `i` stands at index `i` and belongs to that site, with the
    /// argument count it was registered with. Fails, and changes nothing, when a
    /// site has none left; the error names the first such site.
    pub fn freeze(&mut self) -> (r: Result<Vec<RawFunc>, FreezeError>)
        ensures
            r is Ok <==> forall|i: int| 0 <= i < old(self)@.len() ==> (#[trigger] old(self)@[i]).fmt_fn is Some,
            r matches Ok(fns) ==> {
                &&& frozen(old(self)@, final(self)@)
                &&& fns@.len() == old(self)@.len()
                &&& forall|i: int| 0 <= i < fns@.len() ==> {
                    &&& (#[trigger] fns@[i]).site() == Some(i as nat)
                    &&& fns@[i].arity() == old(self)@[i].fmt_fn->Some_0.arity()
                }
            },
            r matches Err(FreezeError::MissingDecoder(k)) ==> {
                &&& final(self)@ == old(self)@
                &&& k < old(self)@.len()
                &&& old(self)@[k as int].fmt_fn is None
                &&& forall|i: int| 0 <= i < k ==> (#[trigger] old(self)@[i]).fmt_fn is Some
            },
    {
        let n = self.sites.len();
        let mut k: usize = 0;
        while k < n
            invariant
                n == self@.len(),
                self@ == old(self)@,
                0 <= k <= n,
                forall|i: int| 0 <= i < k ==> (#[trigger] self@[i]).fmt_fn is Some,
            decreases n - k,
        {
            if self.sites[k].fmt_fn.is_none() {
                return Err(FreezeError::MissingDecoder(k));
            }
            k = k + 1;
        }
        let mut fns: Vec<RawFunc> = Vec::new();
        let mut i: usize = 0;
        while i < n
            invariant
                n == old(self)@.len(),
                self@.len() == n,
                0 <= i <= n,
                fns@.len() == i,
                forall|j: int| 0 <= j < n ==> (#[trigger] old(self)@[j]).fmt_fn is Some,
                forall|j: int| 0 <= j < i ==> {
                    &&& (#[trigger] fns@[j]).site() == Some(j as nat)
                    &&& fns@[j].arity() == old(self)@[j].fmt_fn->Some_0.arity()
                },
                forall|j: int| i <= j < n ==> #[trigger] self@[j] == old(self)@[j],
                forall|j: int| 0 <= j < i ==> {
                    &&& (#[trigger] self@[j]).level == old(self)@[j].level
                    &&& self@[j].fmt == old(self)@[j].fmt
                    &&& self@[j].log_ident == old(self)@[j].log_ident
                    &&& self@[j].fmt_fn is None
                },
            decreases n - i,
        {
            match self.sites[i].fmt_fn.take() {
                Some(f) => fns.push(RawFunc { site: Some(i), arity: f.arity }),
                None => {},
            }
            i = i + 1;
        }
        Ok(fns)
    }
}

/// Registers `spec` and returns its id: the number of sites registered before
/// it. Ids are written into records as `i32`, so the registry holds at most
/// `i32::MAX + 1` sites.
pub fn add_log_line_spec(registry: &mut CallSiteRegistry, spec: LogLineSpec) -> (id: usize)
    requires
        old(registry)@.len() <= i32::MAX,
    ensures
        registered(old(registry)@, spec, final(registry)@, id as nat),
        id <= i32::MAX,
{
    registry.sites.push(spec);
    registry.sites.len() - 1
}

/// The id slot of one call site: empty until the site registers, then set
/// once for good.
pub struct SiteSlot {
    id: Option<usize>,
}

impl View for SiteSlot {
    type V = Option<nat>;

    closed spec fn view(&self) -> Option<nat> {
        match self.id {
            Some(i) => Some(i as nat),
            None => None,
        }
    }
}

impl SiteSlot {
    /// The slot of a call site that has not registered.
    pub fn new() -> (r: Self)
        ensures
            r@ is None,
    {
        SiteSlot { id: None }
    }

    /// The id the call site registered under, if it has.
    pub fn id(&self) -> (r: Option<usize>)
        ensures
            r matches Some(i) ==> self@ == Some(i as nat),
            r is None <==> self@ is None,
    {
        self.id
    }
}

/// Why a call site could not register.
#[derive(Clone, Copy, Debug, PartialEq, Eq, Structural)]
pub enum RegistrationError {
    /// The site has already registered, under this id.
    AlreadyRegistered(usize),
    /// Every id that a record can carry is taken.
    IdsExhausted,
}

/// Registers the call site whose slot is `slot`, once: the first call gives
/// the site its id; any later call is refused and changes nothing.
pub fn register_call_site(registry: &mut CallSiteRegistry, slot: &mut SiteSlot, spec: LogLineSpec) -> (r: Result<usize, RegistrationError>)
    ensures
        old(slot)@ matches Some(p) ==> {
            &&& r == Err::<usize, RegistrationError>(RegistrationError::AlreadyRegistered(p as usize))
            &&& final(slot)@ == old(slot)@
            &&& final(registry)@ == old(registry)@
        },
        old(slot)@ is None && old(registry)@.len() > i32::MAX ==> {
            &&& r == Err::<usize, RegistrationError>(RegistrationError::IdsExhausted)
            &&& final(slot)@ == old(slot)@
            &&& final(registry)@ == old(registry)@
        },
        old(slot)@ is None && old(registry)@.len() <= i32::MAX ==> {
            &&& r matches Ok(id) && registered(old(registry)@, spec, final(registry)@, id as nat)
            &&& final(slot)@ == Some(old(registry)@.len())
        },
{
    match slot.id {
        Some(p) => Err(RegistrationError::AlreadyRegistered(p)),
        None => {
            if registry.len() > i32::MAX as usize {
                return Err(RegistrationError::IdsExhausted);
            }
            let id = add_log_line_spec(registry, spec);
            slot.id = Some(id);
            Ok(id)
        },
    }
}

/// Call sites registered one after another into an empty registry receive
/// pairwise distinct ids that cover exactly `0..n`, for `n` sites: the `i`-th
/// registration receives `i`, however the registrations were scheduled.
pub proof fn lemma_dense_ids(states: Seq<Seq<LogLineSpec>>, specs: Seq<LogLineSpec>, ids: Seq<nat>)
    requires
        states.len() == specs.len() + 1,
        ids.len() == specs.len(),
        states[0].len() == 0,
        forall|i: int| 0 <= i < specs.len() ==> registered(states[i], #[trigger] specs[i], states[i + 1], ids[i]),
    ensures
        forall|i: int| 0 <= i < ids.len() ==> #[trigger] ids[i] == i,
        ids.no_duplicates(),
        ids.to_set() == Set::new(|k: nat| k < specs.len()),
        states[specs.len() as int].len() == specs.len(),
        forall|i: int| 0 <= i < specs.len() ==> #[trigger] states[specs.len() as int][i] == specs[i],
{
    lemma_registry_keeps(states, specs, ids, specs.len() as int);
    assert forall|i: int| 0 <= i <= specs.len() implies (#[trigger] states[i]).len() == i by {
        lemma_registry_len(states, specs, ids, i);
    }
    assert forall|i: int| 0 <= i < ids.len() implies #[trigger] ids[i] == i by {
        assert(registered(states[i], specs[i], states[i + 1], ids[i]));
        assert(states[i].len() == i);
    }
    assert forall|k: nat| #[trigger] ids.to_set().contains(k) <==> k < specs.len() by {
        if k < specs.len() {
            assert(ids[k as int] == k);
        }
    }
    assert(ids.to_set() =~= Set::new(|k: nat| k < specs.len()));
}

/// After `j` registrations the registry holds, at each index `i < j`, the
/// `i`-th registered site.
proof fn lemma_registry_keeps(states: Seq<Seq<LogLineSpec>>, specs: Seq<LogLineSpec>, ids: Seq<nat>, j: int)
    requires
        states.len() == specs.len() + 1,
        ids.len() == specs.len(),
        states[0].len() == 0,
        forall|k: int| 0 <= k < specs.len() ==> registered(states[k], #[trigger] specs[k], states[k + 1], ids[k]),
        0 <= j <= specs.len(),
    ensures
        states[j].len() == j,
        forall|i: int| 0 <= i < j ==> #[trigger] states[j][i] == specs[i],
    decreases j,
{
    if j > 0 {
        lemma_registry_keeps(states, specs, ids, j - 1);
        assert(registered(states[j - 1], specs[j - 1], states[j], ids[j - 1]));
        assert forall|i: int| 0 <= i < j implies #[trigger] states[j][i] == specs[i] by {
            if i < j - 1 {
                assert(states[j][i] == states[j - 1][i]);
            }
        }
    }
}

/// After `i` registrations the registry holds `i` sites.
proof fn lemma_registry_len(states: Seq<Seq<LogLineSpec>>, specs: Seq<LogLineSpec>, ids: Seq<nat>, i: int)
    requires
        states.len() == specs.len() + 1,
        ids.len() == specs.len(),
        states[0].len() == 0,
        forall|j: int| 0 <= j < specs.len() ==> registered(states[j], #[trigger] specs[j], states[j + 1], ids[j]),
        0 <= i <= specs.len(),
    ensures
        states[i].len() == i,
    decreases i,
{
    if i > 0 {
        lemma_registry_len(states, specs, ids, i - 1);
        assert(registered(states[i - 1], specs[i - 1], states[i], ids[i - 1]));
    }
}

} // verus!
