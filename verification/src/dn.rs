//! The `--dn` template: the relative distinguished names that every issued
//! certificate shares.
//!
//! The template's `CN` (if any) is discarded: every certificate gets its own
//! explicit `CN` (the CA name for the CA, the hostname for each node), and
//! the remaining RDNs (O, OU, L, ST, C) are kept in the order given and
//! reused for every certificate.

use vstd::prelude::*;

use crate::text::{
    ascii_upper, ascii_upper_chars, chars_eq, chars_of, find_char, index_of, lemma_index_of_after,
    lemma_split_of_plain, lemma_trim_end_concat, lemma_trim_of_trim_end, lemma_trim_start_concat,
    lemma_trim_start_idempotent, lemma_trim_start_lacks, slice_chars, split_chars, split_on,
    string_from_chars, trim, trim_chars, trim_end, trim_start,
};

verus! {

/// The attribute types that a template may carry, plus `CN`.
#[derive(Clone, Copy, Debug, PartialEq, Eq, Structural)]
pub enum DnAttr {
    CommonName,
    OrganizationName,
    OrganizationalUnitName,
    LocalityName,
    StateOrProvinceName,
    CountryName,
}

/// Why a template was refused.
#[derive(Debug)]
pub enum DnError {
    /// A non-empty component holds no `=`; carries the trimmed component.
    MissingEquals { component: String },
    /// A component names an attribute that is not supported; carries the
    /// attribute in upper case.
    UnsupportedAttribute { attribute: String },
}

/// A refusal as the specification sees it.
pub enum DnFailure {
    MissingEquals(Seq<char>),
    UnsupportedAttribute(Seq<char>),
}

/// What one comma-separated component of a template contributes.
pub enum ComponentOutcome {
    Skip,
    Rdn(DnAttr, Seq<char>),
    Fail(DnFailure),
}

/// The error as the specification sees it.
pub open spec fn dn_failure(e: DnError) -> DnFailure {
    match e {
        DnError::MissingEquals { component } => DnFailure::MissingEquals(component@),
        DnError::UnsupportedAttribute { attribute } => DnFailure::UnsupportedAttribute(attribute@),
    }
}

/// The attribute an upper-cased key names: `CN`, `O`/`ORGANIZATIONNAME`,
/// `OU`/`ORGANIZATIONALUNITNAME`, `L`/`LOCALITYNAME`,
/// `ST`/`S`/`STATEORPROVINCENAME`, `C`/`COUNTRYNAME`.
pub open spec fn attr_named(upper: Seq<char>) -> Option<DnAttr> {
    if upper == "CN"@ {
        Some(DnAttr::CommonName)
    } else if upper == "O"@ || upper == "ORGANIZATIONNAME"@ {
        Some(DnAttr::OrganizationName)
    } else if upper == "OU"@ || upper == "ORGANIZATIONALUNITNAME"@ {
        Some(DnAttr::OrganizationalUnitName)
    } else if upper == "L"@ || upper == "LOCALITYNAME"@ {
        Some(DnAttr::LocalityName)
    } else if upper == "ST"@ || upper == "S"@ || upper == "STATEORPROVINCENAME"@ {
        Some(DnAttr::StateOrProvinceName)
    } else if upper == "C"@ || upper == "COUNTRYNAME"@ {
        Some(DnAttr::CountryName)
    } else {
        None
    }
}

/// What one component contributes: blank components and `CN` are skipped;
/// a component without `=` or with an unknown key is refused; otherwise the
/// attribute with its trimmed value.
pub open spec fn component_outcome(piece: Seq<char>) -> ComponentOutcome {
    let part = trim(piece);
    if part.len() == 0 {
        ComponentOutcome::Skip
    } else {
        let e = index_of(part, '=');
        if e >= part.len() {
            ComponentOutcome::Fail(DnFailure::MissingEquals(part))
        } else {
            let upper = ascii_upper(trim(part.take(e)));
            let value = trim(part.skip(e + 1));
            match attr_named(upper) {
                Some(DnAttr::CommonName) => ComponentOutcome::Skip,
                Some(attr) => ComponentOutcome::Rdn(attr, value),
                None => ComponentOutcome::Fail(DnFailure::UnsupportedAttribute(upper)),
            }
        }
    }
}

/// The RDNs that a run of components yields, or the first refusal.
pub open spec fn parse_components(pieces: Seq<Seq<char>>) -> Result<Seq<(DnAttr, Seq<char>)>, DnFailure>
    decreases pieces.len(),
{
    if pieces.len() == 0 {
        Ok(seq![])
    } else {
        match parse_components(pieces.drop_last()) {
            Err(f) => Err(f),
            Ok(prev) => match component_outcome(pieces.last()) {
                ComponentOutcome::Skip => Ok(prev),
                ComponentOutcome::Rdn(attr, value) => Ok(prev.push((attr, value))),
                ComponentOutcome::Fail(f) => Err(f),
            },
        }
    }
}

/// The RDNs of a `--dn` template, split at commas, or the first refusal.
pub open spec fn parse_dn(dn: Seq<char>) -> Result<Seq<(DnAttr, Seq<char>)>, DnFailure> {
    parse_components(split_on(dn, ','))
}

/// Whether no RDN is a common name.
pub open spec fn no_common_name(rdns: Seq<(DnAttr, Seq<char>)>) -> bool {
    forall|i: int| 0 <= i < rdns.len() ==> #[trigger] rdns[i].0 != DnAttr::CommonName
}

/// A parsed `--dn` template: the non-`CN` RDNs, in the order given.
#[derive(Debug)]
pub struct DnTemplate {
    extra_rdns: Vec<(DnAttr, String)>,
}

impl View for DnTemplate {
    type V = Seq<(DnAttr, Seq<char>)>;

    closed spec fn view(&self) -> Seq<(DnAttr, Seq<char>)> {
        self.extra_rdns@.map_values(|r: (DnAttr, String)| (r.0, r.1@))
    }
}

impl DnTemplate {
    #[verifier::type_invariant]
    closed spec fn has_no_common_name(self) -> bool {
        no_common_name(self@)
    }
}

// ---------------------------------------------------------------------------
// Distinguished names of `rcgen`
// ---------------------------------------------------------------------------

#[verifier::external_type_specification]
#[verifier::external_body]
pub struct ExDistinguishedName(rcgen::DistinguishedName);

/// The entries of an `rcgen::DistinguishedName` in iteration order, each as
/// attribute and text.
pub uninterp spec fn dn_entries(dn: rcgen::DistinguishedName) -> Seq<(DnAttr, Seq<char>)>;

/// The index of the entry for `attr`, or `entries.len()` when there is none.
pub open spec fn entry_index(entries: Seq<(DnAttr, Seq<char>)>, attr: DnAttr) -> int
    decreases entries.len(),
{
    if entries.len() == 0 {
        0
    } else if entries[0].0 == attr {
        0
    } else {
        1 + entry_index(entries.drop_first(), attr)
    }
}

/// The entries after `DistinguishedName::push(attr, value)`: an existing
/// entry for `attr` takes the new value in place, otherwise the entry is
/// appended.
pub open spec fn dn_with(entries: Seq<(DnAttr, Seq<char>)>, attr: DnAttr, value: Seq<char>) -> Seq<
    (DnAttr, Seq<char>),
> {
    let i = entry_index(entries, attr);
    if i < entries.len() {
        entries.update(i, (attr, value))
    } else {
        entries.push((attr, value))
    }
}

/// The value of the entry for `attr`, if any.
pub open spec fn dn_lookup(entries: Seq<(DnAttr, Seq<char>)>, attr: DnAttr) -> Option<Seq<char>> {
    let i = entry_index(entries, attr);
    if i < entries.len() {
        Some(entries[i].1)
    } else {
        None
    }
}

/// The entries of the distinguished name built for `common_name` from the
/// template RDNs `rdns`: `CN` first, then each RDN pushed in order.
pub open spec fn built_dn(common_name: Seq<char>, rdns: Seq<(DnAttr, Seq<char>)>) -> Seq<
    (DnAttr, Seq<char>),
>
    decreases rdns.len(),
{
    if rdns.len() == 0 {
        dn_with(seq![], DnAttr::CommonName, common_name)
    } else {
        dn_with(built_dn(common_name, rdns.drop_last()), rdns.last().0, rdns.last().1)
    }
}

/// `rcgen::DistinguishedName::new`. Trusted: the new name has no entries.
#[verifier::external_body]
fn new_distinguished_name() -> (dn: rcgen::DistinguishedName)
    ensures
        dn_entries(dn) == Seq::<(DnAttr, Seq<char>)>::empty(),
{
    rcgen::DistinguishedName::new()
}

/// `rcgen::DistinguishedName::push` with a UTF-8 string value. Trusted, as
/// its source shows: the attribute's entry takes the value in place if the
/// name has one, otherwise a new entry is appended at the end.
#[verifier::external_body]
fn push_entry(dn: &mut rcgen::DistinguishedName, attr: DnAttr, value: &str)
    ensures
        dn_entries(*final(dn)) == dn_with(dn_entries(*old(dn)), attr, value@),
{
    let ty = match attr {
        DnAttr::CommonName => rcgen::DnType::CommonName,
        DnAttr::OrganizationName => rcgen::DnType::OrganizationName,
        DnAttr::OrganizationalUnitName => rcgen::DnType::OrganizationalUnitName,
        DnAttr::LocalityName => rcgen::DnType::LocalityName,
        DnAttr::StateOrProvinceName => rcgen::DnType::StateOrProvinceName,
        DnAttr::CountryName => rcgen::DnType::CountryName,
    };
    dn.push(ty, value);
}

// ---------------------------------------------------------------------------
// Parsing
// ---------------------------------------------------------------------------

/// Whether `s` spells the literal `lit`.
fn spells(s: &[char], lit: &str) -> (res: bool)
    ensures
        res == (s@ == lit@),
{
    let l = chars_of(lit);
    chars_eq(s, l.as_slice())
}

/// The attribute an upper-cased key names.
fn attr_for(upper: &[char]) -> (res: Option<DnAttr>)
    ensures
        res == attr_named(upper@),
{
    if spells(upper, "CN") {
        Some(DnAttr::CommonName)
    } else if spells(upper, "O") || spells(upper, "ORGANIZATIONNAME") {
        Some(DnAttr::OrganizationName)
    } else if spells(upper, "OU") || spells(upper, "ORGANIZATIONALUNITNAME") {
        Some(DnAttr::OrganizationalUnitName)
    } else if spells(upper, "L") || spells(upper, "LOCALITYNAME") {
        Some(DnAttr::LocalityName)
    } else if spells(upper, "ST") || spells(upper, "S") || spells(upper, "STATEORPROVINCENAME") {
        Some(DnAttr::StateOrProvinceName)
    } else if spells(upper, "C") || spells(upper, "COUNTRYNAME") {
        Some(DnAttr::CountryName)
    } else {
        None
    }
}

/// Internal result of one component.
enum Component {
    Skip,
    Rdn(DnAttr, String),
    Fail(DnError),
}

spec fn component_matches(c: Component, outcome: ComponentOutcome) -> bool {
    match (c, outcome) {
        (Component::Skip, ComponentOutcome::Skip) => true,
        (Component::Rdn(a, v), ComponentOutcome::Rdn(b, w)) => a == b && v@ == w,
        (Component::Fail(e), ComponentOutcome::Fail(f)) => dn_failure(e) == f,
        _ => false,
    }
}

/// Classifies one comma-separated component.
fn parse_component(piece: &[char]) -> (res: Component)
    ensures
        component_matches(res, component_outcome(piece@)),
{
    let part = trim_chars(piece);
    if part.len() == 0 {
        return Component::Skip;
    }
    let e = find_char(part.as_slice(), '=');
    if e >= part.len() {
        return Component::Fail(DnError::MissingEquals { component: string_from_chars(part.as_slice()) });
    }
    let key_raw = slice_chars(part.as_slice(), 0, e);
    assert(key_raw@ == part@.take(e as int));
    let key = trim_chars(key_raw.as_slice());
    let upper = ascii_upper_chars(key.as_slice());
    let value_raw = slice_chars(part.as_slice(), e + 1, part.len());
    assert(value_raw@ == part@.skip(e + 1));
    let value = trim_chars(value_raw.as_slice());
    match attr_for(upper.as_slice()) {
        Some(DnAttr::CommonName) => Component::Skip,
        Some(attr) => Component::Rdn(attr, string_from_chars(value.as_slice())),
        None => Component::Fail(
            DnError::UnsupportedAttribute { attribute: string_from_chars(upper.as_slice()) },
        ),
    }
}

proof fn lemma_parse_components_no_common_name(pieces: Seq<Seq<char>>)
    ensures
        parse_components(pieces) matches Ok(rdns) ==> no_common_name(rdns),
    decreases pieces.len(),
{
    if pieces.len() > 0 {
        lemma_parse_components_no_common_name(pieces.drop_last());
    }
}

impl DnTemplate {
    /// Parses a `--dn` template such as `"CN=admin, OU=NIFI"`: the text is
    /// split at commas, each component trimmed, blank components skipped,
    /// and each other component split at its first `=` into a key and a
    /// value, both trimmed. Keys are matched case-insensitively; `CN` is
    /// dropped, `O`, `OU`, `L`, `ST`/`S`, `C` and their long names are kept,
    /// and any other key, or a component without `=`, refuses the template.
    pub fn parse(dn: &str) -> (res: Result<DnTemplate, DnError>)
        ensures
            parse_dn(dn@) is Ok <==> res is Ok,
            res matches Ok(t) ==> parse_dn(dn@) == Ok::<Seq<(DnAttr, Seq<char>)>, DnFailure>(t@),
            res matches Err(e) ==> parse_dn(dn@) == Err::<Seq<(DnAttr, Seq<char>)>, DnFailure>(
                dn_failure(e),
            ),
    {
        let chars = chars_of(dn);
        let pieces = split_chars(chars.as_slice(), ',');
        let ghost pv = pieces@.map_values(|p: Vec<char>| p@);
        let mut extra_rdns: Vec<(DnAttr, String)> = Vec::new();
        let n = pieces.len();
        let mut i: usize = 0;
        assert(pv.take(0) == Seq::<Seq<char>>::empty());
        assert(extra_rdns@.map_values(|r: (DnAttr, String)| (r.0, r.1@)) == Seq::<
            (DnAttr, Seq<char>),
        >::empty());
        while i < n
            invariant
                n == pieces@.len(),
                pv == pieces@.map_values(|p: Vec<char>| p@),
                pv == split_on(dn@, ','),
                i <= n,
                parse_components(pv.take(i as int)) == Ok::<Seq<(DnAttr, Seq<char>)>, DnFailure>(
                    extra_rdns@.map_values(|r: (DnAttr, String)| (r.0, r.1@)),
                ),
            decreases n - i,
        {
            assert(pv.take(i + 1).drop_last() == pv.take(i as int));
            assert(pv.take(i + 1).last() == pieces@[i as int]@);
            let ghost before = extra_rdns@.map_values(|r: (DnAttr, String)| (r.0, r.1@));
            match parse_component(pieces[i].as_slice()) {
                Component::Skip => {},
                Component::Rdn(attr, value) => {
                    let ghost v = value@;
                    extra_rdns.push((attr, value));
                    assert(extra_rdns@.map_values(|r: (DnAttr, String)| (r.0, r.1@)) == before.push(
                        (attr, v),
                    ));
                },
                Component::Fail(e) => {
                    proof {
                        lemma_parse_failure_extends(pv, i as int + 1);
                    }
                    return Err(e);
                },
            }
            i = i + 1;
        }
        assert(pv.take(n as int) == pv);
        proof {
            lemma_parse_components_no_common_name(pv);
        }
        Ok(DnTemplate { extra_rdns })
    }

    /// Builds the subject DN for an entity (the CA name or a hostname): `CN`
    /// set to `common_name`, followed by the template's RDNs in order.
    pub fn build(&self, common_name: &str) -> (dn: rcgen::DistinguishedName)
        ensures
            dn_entries(dn) == built_dn(common_name@, self@),
            no_common_name(self@),
    {
        proof {
            use_type_invariant(self);
        }
        let mut dn = new_distinguished_name();
        push_entry(&mut dn, DnAttr::CommonName, common_name);
        let ghost rdns = self@;
        let n = self.extra_rdns.len();
        let mut i: usize = 0;
        while i < n
            invariant
                n == self.extra_rdns@.len(),
                rdns == self@,
                rdns == self.extra_rdns@.map_values(|r: (DnAttr, String)| (r.0, r.1@)),
                i <= n,
                dn_entries(dn) == built_dn(common_name@, rdns.take(i as int)),
            decreases n - i,
        {
            assert(rdns.take(i + 1).drop_last() == rdns.take(i as int));
            assert(rdns.take(i + 1).last() == rdns[i as int]);
            let (attr, value) = (self.extra_rdns[i].0, self.extra_rdns[i].1.as_str());
            push_entry(&mut dn, attr, value);
            i = i + 1;
        }
        assert(rdns.take(n as int) == rdns);
        dn
    }
}

/// Once a run of components is refused, any longer run is refused with the
/// same failure.
proof fn lemma_parse_failure_extends(pieces: Seq<Seq<char>>, k: int)
    requires
        0 <= k <= pieces.len(),
        parse_components(pieces.take(k)) is Err,
    ensures
        parse_components(pieces) == parse_components(pieces.take(k)),
    decreases pieces.len() - k,
{
    if k < pieces.len() {
        assert(pieces.take(k + 1).drop_last() == pieces.take(k));
        lemma_parse_failure_extends(pieces, k + 1);
    } else {
        assert(pieces.take(k) == pieces);
    }
}

// ---------------------------------------------------------------------------
// Properties
// ---------------------------------------------------------------------------

/// The value that the last RDN of `attr` in `rdns` gives, if any.
pub open spec fn last_value(rdns: Seq<(DnAttr, Seq<char>)>, attr: DnAttr) -> Option<Seq<char>>
    decreases rdns.len(),
{
    if rdns.len() == 0 {
        None
    } else if rdns.last().0 == attr {
        Some(rdns.last().1)
    } else {
        last_value(rdns.drop_last(), attr)
    }
}

proof fn lemma_entry_index_facts(entries: Seq<(DnAttr, Seq<char>)>, attr: DnAttr)
    ensures
        0 <= entry_index(entries, attr) <= entries.len(),
        entry_index(entries, attr) < entries.len() ==> entries[entry_index(entries, attr)].0 == attr,
        forall|j: int| 0 <= j < entry_index(entries, attr) ==> #[trigger] entries[j].0 != attr,
    decreases entries.len(),
{
    if entries.len() > 0 && entries[0].0 != attr {
        let rest = entries.drop_first();
        lemma_entry_index_facts(rest, attr);
        assert forall|j: int| 0 <= j < entry_index(entries, attr) implies #[trigger] entries[j].0
            != attr by {
            if j > 0 {
                assert(rest[j - 1] == entries[j]);
            }
        }
    }
}

proof fn lemma_entry_index_is(entries: Seq<(DnAttr, Seq<char>)>, attr: DnAttr, k: int)
    requires
        0 <= k <= entries.len(),
        k < entries.len() ==> entries[k].0 == attr,
        forall|j: int| 0 <= j < k ==> #[trigger] entries[j].0 != attr,
    ensures
        entry_index(entries, attr) == k,
{
    lemma_entry_index_facts(entries, attr);
    let g = entry_index(entries, attr);
    if g < k {
        assert(entries[g].0 != attr);
    }
    if k < g {
        assert(entries[k].0 != attr);
    }
}

/// After `push(attr, value)` the name gives `value` for `attr` and what it
/// gave before for every other attribute.
proof fn lemma_dn_with_lookup(entries: Seq<(DnAttr, Seq<char>)>, attr: DnAttr, value: Seq<char>)
    ensures
        dn_lookup(dn_with(entries, attr, value), attr) == Some(value),
        forall|other: DnAttr|
            other != attr ==> #[trigger] dn_lookup(dn_with(entries, attr, value), other)
                == dn_lookup(entries, other),
        entries.len() > 0 && entries[0].0 != attr ==> dn_with(entries, attr, value)[0] == entries[0],
        dn_with(entries, attr, value).len() >= 1,
{
    let i = entry_index(entries, attr);
    let e2 = dn_with(entries, attr, value);
    lemma_entry_index_facts(entries, attr);
    assert forall|j: int| 0 <= j < entries.len() implies #[trigger] e2[j].0 == entries[j].0 by {}
    if i < entries.len() {
        lemma_entry_index_is(e2, attr, i);
    } else {
        lemma_entry_index_is(e2, attr, i);
    }
    assert forall|other: DnAttr| other != attr implies #[trigger] dn_lookup(e2, other) == dn_lookup(
        entries,
        other,
    ) by {
        let k = entry_index(entries, other);
        lemma_entry_index_facts(entries, other);
        if k < entries.len() {
            lemma_entry_index_is(e2, other, k);
            assert(k != i);
        } else {
            lemma_entry_index_is(e2, other, e2.len() as int);
        }
    }
}

/// The DN built for an entity always gives it `common_name` as its `CN`,
/// which stays the first entry; every other attribute takes the value of
/// the last template RDN that names it, and attributes the template does
/// not name are absent.
pub proof fn lemma_built_dn(common_name: Seq<char>, rdns: Seq<(DnAttr, Seq<char>)>)
    requires
        no_common_name(rdns),
    ensures
        built_dn(common_name, rdns).len() >= 1,
        built_dn(common_name, rdns)[0] == (DnAttr::CommonName, common_name),
        dn_lookup(built_dn(common_name, rdns), DnAttr::CommonName) == Some(common_name),
        forall|attr: DnAttr|
            attr != DnAttr::CommonName ==> #[trigger] dn_lookup(built_dn(common_name, rdns), attr)
                == last_value(rdns, attr),
    decreases rdns.len(),
{
    if rdns.len() == 0 {
        lemma_dn_with_lookup(seq![], DnAttr::CommonName, common_name);
        assert forall|attr: DnAttr| attr != DnAttr::CommonName implies #[trigger] dn_lookup(
            built_dn(common_name, rdns),
            attr,
        ) == last_value(rdns, attr) by {
            assert(dn_lookup(Seq::<(DnAttr, Seq<char>)>::empty(), attr) is None);
        }
    } else {
        let init = rdns.drop_last();
        assert forall|i: int| 0 <= i < init.len() implies #[trigger] init[i].0 != DnAttr::CommonName by {
            assert(init[i] == rdns[i]);
        }
        lemma_built_dn(common_name, init);
        let prev = built_dn(common_name, init);
        let (a, v) = rdns.last();
        assert(rdns[rdns.len() - 1].0 != DnAttr::CommonName);
        lemma_dn_with_lookup(prev, a, v);
    }
}

/// A parsed template never holds a common name: the `CN` of a `--dn`
/// template is always dropped.
pub proof fn lemma_parsed_template_has_no_common_name(dn: Seq<char>)
    ensures
        parse_dn(dn) matches Ok(rdns) ==> no_common_name(rdns),
{
    lemma_parse_components_no_common_name(split_on(dn, ','));
}

/// Whether no two RDNs share an attribute.
pub open spec fn distinct_attrs(rdns: Seq<(DnAttr, Seq<char>)>) -> bool {
    forall|i: int, j: int|
        #![trigger rdns[i], rdns[j]]
        0 <= i < rdns.len() && 0 <= j < rdns.len() && i != j ==> rdns[i].0 != rdns[j].0
}

/// When the template names each attribute once, the built DN is `CN`
/// followed by the template's RDNs exactly, in the order given.
pub proof fn lemma_built_dn_keeps_order(common_name: Seq<char>, rdns: Seq<(DnAttr, Seq<char>)>)
    requires
        no_common_name(rdns),
        distinct_attrs(rdns),
    ensures
        built_dn(common_name, rdns) == seq![(DnAttr::CommonName, common_name)] + rdns,
    decreases rdns.len(),
{
    let head = seq![(DnAttr::CommonName, common_name)];
    if rdns.len() == 0 {
        lemma_entry_index_is(Seq::<(DnAttr, Seq<char>)>::empty(), DnAttr::CommonName, 0);
        assert(head + rdns == head);
    } else {
        let init = rdns.drop_last();
        assert forall|i: int| 0 <= i < init.len() implies #[trigger] init[i].0 != DnAttr::CommonName by {
            assert(init[i] == rdns[i]);
        }
        assert forall|i: int, j: int|
            #![trigger init[i], init[j]]
            0 <= i < init.len() && 0 <= j < init.len() && i != j implies init[i].0 != init[j].0 by {
            assert(init[i] == rdns[i]);
            assert(init[j] == rdns[j]);
        }
        lemma_built_dn_keeps_order(common_name, init);
        let prev = head + init;
        let last = rdns.last();
        assert(rdns[rdns.len() - 1] == last);
        assert forall|j: int| 0 <= j < prev.len() implies #[trigger] prev[j].0 != last.0 by {
            if j == 0 {
                assert(last.0 != DnAttr::CommonName);
            } else {
                assert(prev[j] == rdns[j - 1]);
            }
        }
        lemma_entry_index_is(prev, last.0, prev.len() as int);
        assert(prev.push(last) == head + rdns);
    }
}

/// The trimmed key and value of a component `key=value` whose key holds no
/// `=`.
proof fn lemma_component_parts(key: Seq<char>, value: Seq<char>)
    requires
        forall|j: int| 0 <= j < key.len() ==> key[j] != '=',
    ensures
        ({
            let part = trim(key + seq!['='] + value);
            let e = index_of(part, '=');
            &&& part.len() > 0
            &&& e < part.len()
            &&& trim(part.take(e)) == trim(key)
            &&& trim(part.skip(e + 1)) == trim(value)
        }),
{
    let eq_value = seq!['='] + value;
    let dn = key + eq_value;
    assert(key + seq!['='] + value == dn);
    assert(eq_value[0] == '=');
    lemma_trim_start_concat(key, eq_value);
    let ts = trim_start(key);
    assert(trim_start(dn) == ts + eq_value);
    let front = ts + seq!['='];
    assert(ts + eq_value == front + value);
    assert(front.last() == '=');
    lemma_trim_end_concat(front, value);
    let part = front + trim_end(value);
    assert(trim(dn) == part);
    lemma_trim_start_lacks(key, '=');
    lemma_index_of_after(ts, '=', trim_end(value));
    assert(part == ts + seq!['='] + trim_end(value));
    let e = index_of(part, '=');
    assert(e == ts.len());
    assert(part.take(e) == ts);
    assert(part.skip(e + 1) == trim_end(value));
    lemma_trim_start_idempotent(key);
    lemma_trim_of_trim_end(value);
}

/// A template of one component `key=value` yields what the attribute table
/// says of the key's upper-cased, trimmed name.
proof fn lemma_single_component_outcome(key: Seq<char>, value: Seq<char>)
    requires
        forall|j: int| 0 <= j < key.len() ==> key[j] != ',' && key[j] != '=',
        forall|j: int| 0 <= j < value.len() ==> value[j] != ',',
    ensures
        ({
            let dn = key + seq!['='] + value;
            let k = ascii_upper(trim(key));
            let v = trim(value);
            parse_dn(dn) == match attr_named(k) {
                Some(DnAttr::CommonName) => Ok::<Seq<(DnAttr, Seq<char>)>, DnFailure>(seq![]),
                Some(a) => Ok::<Seq<(DnAttr, Seq<char>)>, DnFailure>(seq![(a, v)]),
                None => Err::<Seq<(DnAttr, Seq<char>)>, DnFailure>(
                    DnFailure::UnsupportedAttribute(k),
                ),
            }
        }),
{
    let dn = key + seq!['='] + value;
    assert forall|j: int| 0 <= j < dn.len() implies dn[j] != ',' by {
        if j < key.len() {
            assert(dn[j] == key[j]);
        } else if j > key.len() {
            assert(dn[j] == value[j - key.len() - 1]);
        }
    }
    lemma_split_of_plain(dn, ',');
    let pieces = seq![dn];
    assert(pieces.drop_last() == Seq::<Seq<char>>::empty());
    assert(pieces.last() == dn);
    assert(parse_components(Seq::<Seq<char>>::empty()) == Ok::<
        Seq<(DnAttr, Seq<char>)>,
        DnFailure,
    >(seq![]));
    lemma_component_parts(key, value);
    let part = trim(dn);
    let e = index_of(part, '=');
    assert(ascii_upper(trim(part.take(e))) == ascii_upper(trim(key)));
    assert(trim(part.skip(e + 1)) == trim(value));
    let empty: Seq<(DnAttr, Seq<char>)> = seq![];
    assert forall|a: DnAttr, v: Seq<char>| empty.push((a, v)) == seq![(a, v)] by {
        assert(empty.push((a, v)) =~= seq![(a, v)]);
    }
}

/// A template of one component `KEY=value` (no comma in it, no `=` in the
/// key) is read by the key's name, in any letter case: `CN` is dropped; `O`
/// and `ORGANIZATIONNAME` give the organization, `OU` and
/// `ORGANIZATIONALUNITNAME` the organizational unit, `L` and `LOCALITYNAME`
/// the locality, `ST`, `S` and `STATEORPROVINCENAME` the state or province,
/// `C` and `COUNTRYNAME` the country, each with the trimmed value; any other
/// name refuses the template, naming the key in upper case.
pub proof fn lemma_single_component(key: Seq<char>, value: Seq<char>)
    requires
        forall|j: int| 0 <= j < key.len() ==> key[j] != ',' && key[j] != '=',
        forall|j: int| 0 <= j < value.len() ==> value[j] != ',',
    ensures
        ({
            let dn = key + seq!['='] + value;
            let k = ascii_upper(trim(key));
            let v = trim(value);
            &&& k == "CN"@ ==> parse_dn(dn) == Ok::<Seq<(DnAttr, Seq<char>)>, DnFailure>(seq![])
            &&& (k == "O"@ || k == "ORGANIZATIONNAME"@) ==> parse_dn(dn) == Ok::<
                Seq<(DnAttr, Seq<char>)>,
                DnFailure,
            >(seq![(DnAttr::OrganizationName, v)])
            &&& (k == "OU"@ || k == "ORGANIZATIONALUNITNAME"@) ==> parse_dn(dn) == Ok::<
                Seq<(DnAttr, Seq<char>)>,
                DnFailure,
            >(seq![(DnAttr::OrganizationalUnitName, v)])
            &&& (k == "L"@ || k == "LOCALITYNAME"@) ==> parse_dn(dn) == Ok::<
                Seq<(DnAttr, Seq<char>)>,
                DnFailure,
            >(seq![(DnAttr::LocalityName, v)])
            &&& (k == "ST"@ || k == "S"@ || k == "STATEORPROVINCENAME"@) ==> parse_dn(dn) == Ok::<
                Seq<(DnAttr, Seq<char>)>,
                DnFailure,
            >(seq![(DnAttr::StateOrProvinceName, v)])
            &&& (k == "C"@ || k == "COUNTRYNAME"@) ==> parse_dn(dn) == Ok::<
                Seq<(DnAttr, Seq<char>)>,
                DnFailure,
            >(seq![(DnAttr::CountryName, v)])
            &&& !(k == "CN"@ || k == "O"@ || k == "ORGANIZATIONNAME"@ || k == "OU"@ || k
                == "ORGANIZATIONALUNITNAME"@ || k == "L"@ || k == "LOCALITYNAME"@ || k == "ST"@
                || k == "S"@ || k == "STATEORPROVINCENAME"@ || k == "C"@ || k == "COUNTRYNAME"@)
                ==> parse_dn(dn) == Err::<Seq<(DnAttr, Seq<char>)>, DnFailure>(
                DnFailure::UnsupportedAttribute(k),
            )
        }),
{
    lemma_single_component_outcome(key, value);
    let k = ascii_upper(trim(key));
    reveal_strlit("CN");
    reveal_strlit("O");
    reveal_strlit("ORGANIZATIONNAME");
    reveal_strlit("OU");
    reveal_strlit("ORGANIZATIONALUNITNAME");
    reveal_strlit("L");
    reveal_strlit("LOCALITYNAME");
    reveal_strlit("ST");
    reveal_strlit("S");
    reveal_strlit("STATEORPROVINCENAME");
    reveal_strlit("C");
    reveal_strlit("COUNTRYNAME");
    assert("CN"@.len() == 2);
    assert("CN"@[0] == 'C');
    assert("CN"@[1] == 'N');
    assert("O"@.len() == 1);
    assert("O"@[0] == 'O');
    assert("ORGANIZATIONNAME"@.len() == 16);
    assert("ORGANIZATIONNAME"@[0] == 'O');
    assert("ORGANIZATIONNAME"@[1] == 'R');
    assert("OU"@.len() == 2);
    assert("OU"@[0] == 'O');
    assert("OU"@[1] == 'U');
    assert("ORGANIZATIONALUNITNAME"@.len() == 22);
    assert("ORGANIZATIONALUNITNAME"@[0] == 'O');
    assert("ORGANIZATIONALUNITNAME"@[1] == 'R');
    assert("L"@.len() == 1);
    assert("L"@[0] == 'L');
    assert("LOCALITYNAME"@.len() == 12);
    assert("LOCALITYNAME"@[0] == 'L');
    assert("LOCALITYNAME"@[1] == 'O');
    assert("ST"@.len() == 2);
    assert("ST"@[0] == 'S');
    assert("ST"@[1] == 'T');
    assert("S"@.len() == 1);
    assert("S"@[0] == 'S');
    assert("STATEORPROVINCENAME"@.len() == 19);
    assert("STATEORPROVINCENAME"@[0] == 'S');
    assert("STATEORPROVINCENAME"@[1] == 'T');
    assert("C"@.len() == 1);
    assert("C"@[0] == 'C');
    assert("COUNTRYNAME"@.len() == 11);
    assert("COUNTRYNAME"@[0] == 'C');
    assert("COUNTRYNAME"@[1] == 'O');
    assert(attr_named("CN"@) == Some(DnAttr::CommonName));
    assert(attr_named("O"@) == Some(DnAttr::OrganizationName));
    assert(attr_named("ORGANIZATIONNAME"@) == Some(DnAttr::OrganizationName));
    assert(attr_named("OU"@) == Some(DnAttr::OrganizationalUnitName));
    assert(attr_named("ORGANIZATIONALUNITNAME"@) == Some(DnAttr::OrganizationalUnitName));
    assert(attr_named("L"@) == Some(DnAttr::LocalityName));
    assert(attr_named("LOCALITYNAME"@) == Some(DnAttr::LocalityName));
    assert(attr_named("ST"@) == Some(DnAttr::StateOrProvinceName));
    assert(attr_named("S"@) == Some(DnAttr::StateOrProvinceName));
    assert(attr_named("STATEORPROVINCENAME"@) == Some(DnAttr::StateOrProvinceName));
    assert(attr_named("C"@) == Some(DnAttr::CountryName));
    assert(attr_named("COUNTRYNAME"@) == Some(DnAttr::CountryName));
}

} // verus!
