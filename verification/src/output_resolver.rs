//! The project's `outputs` map resolved against the active store in one
//! scan: the candidates with the tags of the secrets that could be
//! decrypted, the resolved outputs, and the decoded secrets reused when a
//! value is needed. Reading the store and decrypting stay with the caller,
//! which hands the scan in, and hands in a value only for the entries the
//! scan could not decode.
use vstd::prelude::*;

use crate::error::HimitsuError;
use crate::exec::{
    bad_key_msg, bindings_v, carries_all, carries_all_exec, lemma_lookup_bindings, not_text_msg,
};
use crate::env_dsl::{expand_brace_label, expand_spec};
use crate::outputs::{
    capture_subst, capture_subst_chars, cands_v, entries_v, is_concrete_ref, is_concrete_spec,
    matching_entries, outputs_spec, outputs_v, resolve_outputs, resolve_selector_entry, CandV,
    Context, OutputDef, OutputsMap, ResolvedEntry, ResolvedOutput, SecretCandidate,
};
use crate::selector::selector_of;
use crate::secret::{Decoded, Timestamp};
use crate::selector::tag_views;
use crate::set::{valid_env_key, validate_env_key};
use crate::strmap::{insert_sorted, lemma_map_vals_insert, lookup, map_vals, project_first, StrMap};
use crate::text::{copy_string, debug_quoted, has_prefix, push_str, quoted, str_eq, utf8_string, views};

verus! {

/// The outputs of a project resolved against one scan of its store.
pub struct OutputResolver {
    resolved: Vec<ResolvedOutput>,
    candidates: Vec<SecretCandidate>,
    decoded: StrMap<Decoded>,
}

/// A copy of a list of strings.
fn copy_strings(v: &Vec<String>) -> (r: Vec<String>)
    ensures
        views(r@) == views(v@),
{
    let mut r: Vec<String> = Vec::new();
    let mut i: usize = 0;
    while i < v.len()
        invariant
            i <= v@.len(),
            views(r@) == views(v@).take(i as int),
        decreases v.len() - i,
    {
        let ghost before = r@;
        let s = copy_string(&v[i]);
        r.push(s);
        assert(views(r@) =~= views(before).push(s@));
        assert(views(v@).take(i + 1) =~= views(v@).take(i as int).push(v@[i as int]@));
        i += 1;
    }
    assert(views(v@).take(v@.len() as int) == views(v@));
    r
}

/// A copy of a byte string.
pub(crate) fn copy_bytes(v: &Vec<u8>) -> (r: Vec<u8>)
    ensures
        r@ == v@,
{
    let mut r: Vec<u8> = Vec::new();
    let mut i: usize = 0;
    while i < v.len()
        invariant
            i <= v@.len(),
            r@ == v@.take(i as int),
        decreases v.len() - i,
    {
        r.push(v[i]);
        assert(v@.take(i + 1) =~= v@.take(i as int).push(v@[i as int]));
        i += 1;
    }
    assert(v@.take(v@.len() as int) == v@);
    r
}

/// The candidate a scanned secret makes: its path, with its tags when it
/// was decoded and none otherwise.
pub open spec fn candidate_of(scan: (String, Option<Decoded>)) -> (Seq<char>, Seq<Seq<char>>) {
    (
        scan.0@,
        match scan.1 {
            Some(d) => tag_views(d.tags@),
            None => Seq::empty(),
        },
    )
}

/// The candidates of a scan, in order.
pub open spec fn scan_candidates(scan: Seq<(String, Option<Decoded>)>) -> Seq<(Seq<char>, Seq<Seq<char>>)> {
    scan.map_values(|e: (String, Option<Decoded>)| candidate_of(e))
}

/// The decoded secrets of a scan, by path.
pub open spec fn scan_cache(scan: Seq<(String, Option<Decoded>)>) -> Seq<(Seq<char>, Decoded)>
    decreases scan.len(),
{
    if scan.len() == 0 {
        Seq::empty()
    } else {
        let rest = scan_cache(scan.drop_last());
        match scan.last().1 {
            Some(d) => insert_sorted(rest, scan.last().0@, d),
            None => rest,
        }
    }
}

// ── Selector-valued aliases ──────────────────────────────────────────────

/// An alias value is acceptable: a reference to one secret, or a selector
/// (`tag:…`, or a pattern with `*` or `?`) that matches exactly one of the
/// candidates.
pub open spec fn alias_ok(value: Seq<char>, cands: Seq<CandV>) -> bool {
    is_concrete_spec(value) || (selector_of(value) matches Some(sel) && matching_entries(sel, cands).len()
        == 1)
}

/// Every alias of an output block is acceptable for one capture value.
pub open spec fn def_aliases_ok(def: OutputDef, capture: Seq<char>, cands: Seq<CandV>) -> bool {
    forall|k: int|
        0 <= k < def.aliases.entries_view().len() ==> alias_ok(
            capture_subst((#[trigger] def.aliases.entries_view()[k]).1@, capture),
            cands,
        )
}

/// Every alias of an output is acceptable for each expansion of its name.
pub open spec fn output_aliases_ok(o: (Seq<char>, OutputDef), cands: Seq<CandV>) -> bool {
    forall|j: int|
        0 <= j < expand_spec(o.0).len() ==> def_aliases_ok(o.1, (#[trigger] expand_spec(o.0)[j]).1, cands)
}

/// Every alias of the map is acceptable.
pub open spec fn aliases_single(outs: Seq<(Seq<char>, OutputDef)>, cands: Seq<CandV>) -> bool {
    forall|i: int| 0 <= i < outs.len() ==> output_aliases_ok(#[trigger] outs[i], cands)
}

/// The error of a selector-valued alias that does not match exactly one
/// secret.
pub open spec fn alias_count_msg(key: Seq<char>, value: Seq<char>, found: nat) -> Seq<char> {
    "alias '"@ + key + "' expects exactly one secret matching '"@ + value + "', found "@
        + crate::text::decimal(found)
}

/// Checks one alias value (after `$1` substitution).
fn check_alias(key: &str, value: &[char], ctx: &Context) -> (r: Result<(), HimitsuError>)
    ensures
        r is Ok <==> alias_ok(value@, cands_v(ctx.available_secrets@)),
        r matches Err(e) ==> e is InvalidSelector || e is InvalidConfig,
{
    if is_concrete_ref(value) {
        return Ok(());
    }
    let es = resolve_selector_entry(value, ctx)?;
    assert(entries_v(es@).len() == es@.len());
    if es.len() == 1 {
        Ok(())
    } else {
        let mut m = String::from_str("alias '");
        push_str(&mut m, key);
        push_str(&mut m, "' expects exactly one secret matching '");
        push_str(&mut m, crate::text::string_of(value).as_str());
        push_str(&mut m, "', found ");
        push_str(&mut m, crate::text::string_of(&crate::text::decimal_chars(es.len())).as_str());
        Err(HimitsuError::InvalidConfig(m))
    }
}

/// Checks every alias of an output block for one capture value.
fn check_def_aliases(def: &OutputDef, capture: &[char], ctx: &Context) -> (r: Result<(), HimitsuError>)
    ensures
        r is Ok <==> def_aliases_ok(*def, capture@, cands_v(ctx.available_secrets@)),
        r matches Err(e) ==> e is InvalidSelector || e is InvalidConfig,
{
    let ghost av = def.aliases.entries_view();
    let ghost cv = cands_v(ctx.available_secrets@);
    let mut k: usize = 0;
    while k < def.aliases.len()
        invariant
            k <= av.len(),
            av == def.aliases.entries_view(),
            cv == cands_v(ctx.available_secrets@),
            forall|q: int| 0 <= q < k ==> alias_ok(capture_subst((#[trigger] av[q]).1@, capture@), cv),
        decreases av.len() - k,
    {
        let key = def.aliases.key_at(k);
        let value = def.aliases.value_at(k);
        let v = capture_subst_chars(&crate::text::chars_of(value.as_str()), capture);
        match check_alias(key.as_str(), &v, ctx) {
            Ok(()) => {},
            Err(e) => {
                assert(!alias_ok(capture_subst(av[k as int].1@, capture@), cv));
                return Err(e);
            },
        }
        k += 1;
    }
    Ok(())
}

/// Checks every alias of every output of the map, for each expansion of
/// its name.
fn check_aliases(outputs: &OutputsMap, ctx: &Context) -> (r: Result<(), HimitsuError>)
    ensures
        r is Ok <==> aliases_single(outputs.entries_view(), cands_v(ctx.available_secrets@)),
        r matches Err(e) ==> e is InvalidSelector || e is InvalidConfig,
{
    let ghost ov = outputs.entries_view();
    let ghost cv = cands_v(ctx.available_secrets@);
    let mut i: usize = 0;
    while i < outputs.len()
        invariant
            i <= ov.len(),
            ov == outputs.entries_view(),
            cv == cands_v(ctx.available_secrets@),
            forall|q: int| 0 <= q < i ==> output_aliases_ok(#[trigger] ov[q], cv),
        decreases ov.len() - i,
    {
        let name = outputs.key_at(i);
        let def = outputs.value_at(i);
        let exps = expand_brace_label(name.as_str());
        let ghost xv = exps@.map_values(|e: (String, String)| (e.0@, e.1@));
        assert(xv == expand_spec(ov[i as int].0));
        let mut j: usize = 0;
        while j < exps.len()
            invariant
                j <= exps@.len(),
                i < ov.len(),
                ov == outputs.entries_view(),
                cv == cands_v(ctx.available_secrets@),
                xv == exps@.map_values(|e: (String, String)| (e.0@, e.1@)),
                xv == expand_spec(ov[i as int].0),
                *def == ov[i as int].1,
                forall|q: int| 0 <= q < j ==> def_aliases_ok(*def, (#[trigger] xv[q]).1, cv),
            decreases exps@.len() - j,
        {
            assert(xv[j as int] == (exps@[j as int].0@, exps@[j as int].1@));
            let cap = crate::text::chars_of(exps[j].1.as_str());
            match check_def_aliases(def, &cap, ctx) {
                Ok(()) => {},
                Err(e) => {
                    assert(!output_aliases_ok(ov[i as int], cv)) by {
                        assert(!def_aliases_ok(ov[i as int].1, expand_spec(ov[i as int].0)[j as int].1, cv));
                    }
                    return Err(e);
                },
            }
            j += 1;
        }
        assert(output_aliases_ok(ov[i as int], cv));
        i += 1;
    }
    Ok(())
}

impl OutputResolver {
    /// The resolved outputs.
    pub closed spec fn outputs_view(&self) -> Seq<ResolvedOutput> {
        self.resolved@
    }

    /// The candidates of the scan.
    pub closed spec fn candidates_view(&self) -> Seq<(Seq<char>, Seq<Seq<char>>)> {
        cands_v(self.candidates@)
    }

    /// The decoded secrets of the scan, by path.
    pub closed spec fn cache_view(&self) -> Seq<(Seq<char>, Decoded)> {
        self.decoded.entries_view()
    }

    /// The resolver of a project without outputs: nothing resolved and no
    /// scan made.
    pub fn empty() -> (r: OutputResolver)
        ensures
            r.outputs_view().len() == 0,
            r.candidates_view().len() == 0,
            r.cache_view().len() == 0,
    {
        let r = OutputResolver { resolved: Vec::new(), candidates: Vec::new(), decoded: StrMap::new() };
        assert(cands_v(r.candidates@) =~= Seq::<(Seq<char>, Seq<Seq<char>>)>::empty());
        r
    }

    /// Resolves `outputs` against one scan of the store: each scanned path
    /// with its decoded secret, or `None` when it could not be decrypted
    /// (such a secret carries no tags, so it matches no tag selector).
    /// Selector and alias errors of any output surface here: besides the
    /// resolution itself, every selector-valued alias must match exactly one
    /// scanned secret.
    pub fn open(outputs: &OutputsMap, scan: Vec<(String, Option<Decoded>)>) -> (r: Result<
        OutputResolver,
        HimitsuError,
    >)
        ensures
            r is Ok <==> outputs_spec(outputs.entries_view(), scan_candidates(scan@)) is Some
                && aliases_single(outputs.entries_view(), scan_candidates(scan@)),
            outputs_spec(outputs.entries_view(), scan_candidates(scan@)) is Some ==> (r matches Err(e)
                ==> e is InvalidSelector || e is InvalidConfig),
            r matches Ok(o) ==> Some(outputs_v(o.outputs_view())) == outputs_spec(
                outputs.entries_view(),
                scan_candidates(scan@),
            ) && o.candidates_view() == scan_candidates(scan@) && o.cache_view() == scan_cache(
                scan@,
            ),
    {
        let ghost sv = scan@;
        let mut candidates: Vec<SecretCandidate> = Vec::new();
        let mut decoded: StrMap<Decoded> = StrMap::new();
        let mut rest = scan;
        let ghost n = sv.len();
        let mut i: usize = 0;
        assert(n == rest.len());
        assert(sv.skip(0) == sv);
        assert(cands_v(candidates@) =~= scan_candidates(sv.take(0)));
        while rest.len() > 0
            invariant
                i + rest@.len() == n,
                n == sv.len(),
                n <= usize::MAX,
                rest@ == sv.skip(i as int),
                cands_v(candidates@) == scan_candidates(sv.take(i as int)),
                decoded.entries_view() == scan_cache(sv.take(i as int)),
            decreases rest.len(),
        {
            let (path, d) = rest.remove(0);
            assert(sv[i as int] == (path, d));
            assert(rest@ =~= sv.skip(i + 1));
            assert(sv.take(i + 1).drop_last() == sv.take(i as int));
            assert(sv.take(i + 1).last() == sv[i as int]);
            let tags = match &d {
                Some(dec) => copy_strings(&dec.tags),
                None => Vec::new(),
            };
            let ghost before = candidates@;
            let c = SecretCandidate { path: copy_string(&path), tags };
            proof {
                assert(tag_views(c.tags@) =~= views(c.tags@));
                if d is Some {
                    assert(tag_views(d->Some_0.tags@) =~= views(d->Some_0.tags@));
                } else {
                    assert(tag_views(c.tags@) =~= Seq::<Seq<char>>::empty());
                }
                assert((c.path@, tag_views(c.tags@)) == candidate_of(sv[i as int]));
            }
            candidates.push(c);
            assert(cands_v(candidates@) =~= cands_v(before).push(candidate_of(sv[i as int])));
            assert(scan_candidates(sv.take(i + 1)) =~= scan_candidates(sv.take(i as int)).push(
                candidate_of(sv[i as int]),
            ));
            match d {
                Some(dec) => {
                    decoded.insert(path, dec);
                },
                None => {},
            }
            i += 1;
        }
        assert(sv.take(n as int) == sv);
        let ctx = Context { available_secrets: candidates };
        let resolved = resolve_outputs(outputs, &ctx)?;
        check_aliases(outputs, &ctx)?;
        Ok(OutputResolver { resolved, candidates: ctx.available_secrets, decoded })
    }

    /// All resolved outputs, in declaration order.
    pub fn all(&self) -> (r: &[ResolvedOutput])
        ensures
            r@ == self.outputs_view(),
    {
        self.resolved.as_slice()
    }

    /// The first resolved output named `name`.
    pub fn get(&self, name: &str) -> (r: Option<&ResolvedOutput>)
        ensures
            match first_named(self.outputs_view(), name@) {
                Some(i) => r matches Some(o) && *o == self.outputs_view()[i],
                None => r is None,
            },
    {
        let ghost ov = self.resolved@;
        let mut i: usize = 0;
        while i < self.resolved.len()
            invariant
                i <= ov.len(),
                ov == self.resolved@,
                forall|j: int| 0 <= j < i ==> #[trigger] ov[j].name@ != name@,
            decreases self.resolved.len() - i,
        {
            if str_eq(self.resolved[i].name.as_str(), name) {
                proof {
                    lemma_first_named(ov, name@, i as int);
                }
                return Some(&self.resolved[i]);
            }
            i += 1;
        }
        proof {
            lemma_first_named_none(ov, name@);
        }
        None
    }

    /// Which entries of `output` need a value the scan does not hold: the
    /// cross-store ones, and the local ones the scan could not decode.
    pub fn needs_value(&self, output: &ResolvedOutput) -> (r: Vec<bool>)
        ensures
            r@.len() == output.entries@.len(),
            forall|i: int|
                0 <= i < r@.len() ==> r@[i] == needs_fetch(output.entries@[i], self.cache_view()),
    {
        let mut r: Vec<bool> = Vec::new();
        let mut i: usize = 0;
        while i < output.entries.len()
            invariant
                i <= output.entries@.len(),
                r@.len() == i,
                forall|j: int|
                    0 <= j < i ==> r@[j] == needs_fetch(output.entries@[j], self.cache_view()),
            decreases output.entries.len() - i,
        {
            let e = &output.entries[i];
            let need = e.store_slug.is_some() || !self.decoded.contains_key(e.secret_path.as_str());
            r.push(need);
            i += 1;
        }
        r
    }
}

/// The index of the first output named `name`.
pub open spec fn first_named(outputs: Seq<ResolvedOutput>, name: Seq<char>) -> Option<int> {
    if exists|i: int| 0 <= i < outputs.len() && #[trigger] outputs[i].name@ == name {
        Some(
            choose|i: int|
                0 <= i < outputs.len() && outputs[i].name@ == name && forall|j: int|
                    0 <= j < i ==> #[trigger] outputs[j].name@ != name,
        )
    } else {
        None
    }
}

proof fn lemma_first_named(outputs: Seq<ResolvedOutput>, name: Seq<char>, i: int)
    requires
        0 <= i < outputs.len(),
        outputs[i].name@ == name,
        forall|j: int| 0 <= j < i ==> #[trigger] outputs[j].name@ != name,
    ensures
        first_named(outputs, name) == Some(i),
{
    let k = choose|k: int|
        0 <= k < outputs.len() && outputs[k].name@ == name && forall|j: int|
            0 <= j < k ==> #[trigger] outputs[j].name@ != name;
    assert(0 <= k < outputs.len() && outputs[k].name@ == name && forall|j: int|
        0 <= j < k ==> #[trigger] outputs[j].name@ != name);
    if k < i {
        assert(outputs[k].name@ != name);
    }
    if i < k {
        assert(outputs[i].name@ != name);
    }
}

proof fn lemma_first_named_none(outputs: Seq<ResolvedOutput>, name: Seq<char>)
    requires
        forall|j: int| 0 <= j < outputs.len() ==> #[trigger] outputs[j].name@ != name,
    ensures
        first_named(outputs, name) is None,
{
}

/// An entry needs a value from outside the scan: it names another store,
/// or the scan could not decode its secret.
pub open spec fn needs_fetch(e: ResolvedEntry, cache: Seq<(Seq<char>, Decoded)>) -> bool {
    e.store_slug is Some || lookup(cache, e.secret_path@) is None
}

/// The decoded secret of entry `i`: from the scan, else the one handed in.
pub open spec fn value_of(
    i: int,
    e: ResolvedEntry,
    cache: Seq<(Seq<char>, Decoded)>,
    fetched: Seq<Option<Result<Decoded, HimitsuError>>>,
) -> Result<Decoded, HimitsuError> {
    if e.store_slug is None && lookup(cache, e.secret_path@) is Some {
        Ok(lookup(cache, e.secret_path@).unwrap())
    } else {
        fetched[i].unwrap()
    }
}

/// Every entry that needs a value has one handed in.
pub open spec fn fetched_covers(
    entries: Seq<ResolvedEntry>,
    cache: Seq<(Seq<char>, Decoded)>,
    fetched: Seq<Option<Result<Decoded, HimitsuError>>>,
) -> bool {
    fetched.len() == entries.len() && forall|i: int|
        0 <= i < entries.len() && needs_fetch(#[trigger] entries[i], cache) ==> fetched[i] is Some
}

/// Why an output's env map cannot be built.
pub enum EnvStop {
    /// A cross-store entry (the message).
    CrossStore(Seq<char>),
    /// A value could not be had (the error handed in).
    Failed(HimitsuError),
    /// A bad env-var name (the message).
    Invalid(Seq<char>),
    /// Two entries on one name (the message).
    Conflict(Seq<char>),
    /// A value that is not text (the start of the message).
    NotText(Seq<char>),
}

/// The message for a cross-store entry in an env map.
pub open spec fn cross_store_msg(label: Seq<char>, path: Seq<char>) -> Seq<char> {
    "output "@ + debug_quoted(label) + " references a cross-store secret ("@ + path
        + "); cross-store exec is not supported yet"@
}

/// The message for two entries binding one env var.
pub open spec fn output_conflict_msg(key: Seq<char>, prev: Seq<char>, path: Seq<char>) -> Seq<char> {
    "env-var "@ + debug_quoted(key) + " would be set by both "@ + debug_quoted(prev) + " and "@
        + debug_quoted(path) + "; rename one via `set --env-key` or a selector alias"@
}

/// The bindings after a decoded entry: an entry lacking a wanted tag is
/// left out; otherwise its env-var name must be valid and free, and its
/// value text.
pub open spec fn bind_step(
    acc: Seq<(Seq<char>, (Seq<char>, Seq<char>))>,
    e: ResolvedEntry,
    d: Decoded,
    want: Seq<Seq<char>>,
) -> Result<Seq<(Seq<char>, (Seq<char>, Seq<char>))>, EnvStop> {
    if !carries_all(want, views(d.tags@)) {
        Ok(acc)
    } else if !valid_env_key(e.env_key@) {
        Err(EnvStop::Invalid(bad_key_msg(e.env_key@, e.secret_path@)))
    } else {
        match lookup(acc, e.env_key@) {
            Some(prev) => Err(
                EnvStop::Conflict(output_conflict_msg(e.env_key@, prev.1, e.secret_path@)),
            ),
            None => if !vstd::utf8::valid_utf8(d.data@) {
                Err(EnvStop::NotText(not_text_msg(e.secret_path@)))
            } else {
                Ok(insert_sorted(acc, e.env_key@, (vstd::utf8::decode_utf8(d.data@), e.secret_path@)))
            },
        }
    }
}

/// The bindings after entry `i`: a cross-store entry stops the map before
/// any value is read.
pub open spec fn env_entry_step(
    acc: Seq<(Seq<char>, (Seq<char>, Seq<char>))>,
    label: Seq<char>,
    i: int,
    e: ResolvedEntry,
    cache: Seq<(Seq<char>, Decoded)>,
    fetched: Seq<Option<Result<Decoded, HimitsuError>>>,
    want: Seq<Seq<char>>,
) -> Result<Seq<(Seq<char>, (Seq<char>, Seq<char>))>, EnvStop> {
    if e.store_slug is Some {
        Err(EnvStop::CrossStore(cross_store_msg(label, e.secret_path@)))
    } else {
        match value_of(i, e, cache, fetched) {
            Err(err) => Err(EnvStop::Failed(err)),
            Ok(d) => bind_step(acc, e, d, want),
        }
    }
}

/// The bindings of the first `n` entries; the first failure stops.
pub open spec fn env_entries_spec(
    entries: Seq<ResolvedEntry>,
    n: int,
    label: Seq<char>,
    cache: Seq<(Seq<char>, Decoded)>,
    fetched: Seq<Option<Result<Decoded, HimitsuError>>>,
    want: Seq<Seq<char>>,
) -> Result<Seq<(Seq<char>, (Seq<char>, Seq<char>))>, EnvStop>
    decreases n,
{
    if n <= 0 {
        Ok(Seq::empty())
    } else {
        match env_entries_spec(entries, n - 1, label, cache, fetched, want) {
            Err(s) => Err(s),
            Ok(acc) => env_entry_step(acc, label, n - 1, entries[n - 1], cache, fetched, want),
        }
    }
}

/// `r` is what `s` describes: the env-var names with their values.
pub open spec fn env_map_holds(
    r: Result<StrMap<String>, HimitsuError>,
    s: Result<Seq<(Seq<char>, (Seq<char>, Seq<char>))>, EnvStop>,
) -> bool {
    match s {
        Ok(a) => r matches Ok(m) && map_vals(m.entries_view(), |v: String| v@) == map_vals(
            a,
            |p: (Seq<char>, Seq<char>)| p.0,
        ),
        Err(EnvStop::CrossStore(msg)) => r matches Err(e) && e is NotSupported && e.detail() == msg,
        Err(EnvStop::Failed(err)) => r == Err::<StrMap<String>, HimitsuError>(err),
        Err(EnvStop::Invalid(msg)) => r matches Err(e) && e is InvalidReference && e.detail()
            == msg,
        Err(EnvStop::Conflict(msg)) => r matches Err(e) && e is InvalidConfig && e.detail() == msg,
        Err(EnvStop::NotText(start)) => r matches Err(e) && e is InvalidReference && has_prefix(
            e.detail(),
            start,
        ),
    }
}


/// Adds one decoded entry to the bindings.
fn bind_entry(map: &mut StrMap<(String, String)>, e: &ResolvedEntry, d: &Decoded, want: &[String]) -> (res:
    Result<(), HimitsuError>)
    requires
        old(map).wf(),
    ensures
        final(map).wf(),
        match bind_step(bindings_v(old(map).entries_view()), *e, *d, views(want@)) {
            Ok(a) => res is Ok && bindings_v(final(map).entries_view()) == a,
            Err(f) => res is Err && env_map_holds(Err::<StrMap<String>, HimitsuError>(res->Err_0), Err(f)),
        },
{
    if want.len() > 0 && !carries_all_exec(want, d.tags.as_slice()) {
        return Ok(());
    }
    proof {
        if want@.len() == 0 {
            assert(carries_all(views(want@), views(d.tags@)));
        }
    }
    match validate_env_key(e.env_key.as_str()) {
        Err(err) => {
            let mut m = err.to_string();
            push_str(&mut m, " (from ");
            push_str(&mut m, quoted(e.secret_path.as_str()).as_str());
            push_str(&mut m, ")");
            proof {
                assert(m@ == bad_key_msg(e.env_key@, e.secret_path@));
            }
            return Err(HimitsuError::InvalidReference(m));
        },
        Ok(_) => {},
    }
    match map.get(e.env_key.as_str()) {
        Some(prev) => {
            proof {
                lemma_lookup_bindings(map.entries_view(), e.env_key@);
            }
            let mut m = String::from_str("env-var ");
            push_str(&mut m, quoted(e.env_key.as_str()).as_str());
            push_str(&mut m, " would be set by both ");
            push_str(&mut m, quoted(prev.1.as_str()).as_str());
            push_str(&mut m, " and ");
            push_str(&mut m, quoted(e.secret_path.as_str()).as_str());
            push_str(&mut m, "; rename one via `set --env-key` or a selector alias");
            return Err(HimitsuError::InvalidConfig(m));
        },
        None => {
            proof {
                lemma_lookup_bindings(map.entries_view(), e.env_key@);
            }
        },
    }
    match utf8_string(copy_bytes(&d.data)) {
        Err(reason) => {
            let mut m = String::from_str("secret ");
            push_str(&mut m, quoted(e.secret_path.as_str()).as_str());
            push_str(&mut m, " contains non-UTF-8 bytes — exec can only inject text values: ");
            let ghost head = m@;
            push_str(&mut m, reason.as_str());
            assert(m@.take(head.len() as int) =~= head);
            Err(HimitsuError::InvalidReference(m))
        },
        Ok(value) => {
            let ghost before = map.entries_view();
            let path = copy_string(&e.secret_path);
            let ghost tup = (value, path);
            map.insert(copy_string(&e.env_key), (value, path));
            proof {
                lemma_map_vals_insert(before, e.env_key@, tup, |p: (String, String)| (p.0@, p.1@));
            }
            Ok(())
        },
    }
}

proof fn lemma_env_entries_err(
    entries: Seq<ResolvedEntry>,
    k: int,
    n: int,
    label: Seq<char>,
    cache: Seq<(Seq<char>, Decoded)>,
    fetched: Seq<Option<Result<Decoded, HimitsuError>>>,
    want: Seq<Seq<char>>,
)
    requires
        0 <= k <= n,
        env_entries_spec(entries, k, label, cache, fetched, want) is Err,
    ensures
        env_entries_spec(entries, n, label, cache, fetched, want) == env_entries_spec(
            entries,
            k,
            label,
            cache,
            fetched,
            want,
        ),
    decreases n - k,
{
    if k < n {
        lemma_env_entries_err(entries, k, n - 1, label, cache, fetched, want);
    }
}

impl OutputResolver {
    /// The env map of an output for `exec`: each entry bound to its env-var
    /// name, in name order; `fetched` holds, for each entry that needs it,
    /// the decoded secret or the error of getting it. Entries lacking a
    /// wanted tag are left out before names are checked for conflicts.
    pub fn env_map_of(
        &self,
        label: &str,
        output: &ResolvedOutput,
        tag_filter: &[String],
        fetched: Vec<Option<Result<Decoded, HimitsuError>>>,
    ) -> (r: Result<StrMap<String>, HimitsuError>)
        requires
            fetched_covers(output.entries@, self.cache_view(), fetched@),
        ensures
            env_map_holds(
                r,
                env_entries_spec(
                    output.entries@,
                    output.entries@.len() as int,
                    label@,
                    self.cache_view(),
                    fetched@,
                    views(tag_filter@),
                ),
            ),
    {
        let ghost es = output.entries@;
        let ghost fv = fetched@;
        let ghost cache = self.cache_view();
        let ghost wv = views(tag_filter@);
        let mut map: StrMap<(String, String)> = StrMap::new();
        let mut rest = fetched;
        let mut i: usize = 0;
        assert(fv.skip(0) == fv);
        assert(bindings_v(map.entries_view()) =~= Seq::<(Seq<char>, (Seq<char>, Seq<char>))>::empty());
        while i < output.entries.len()
            invariant
                i <= es.len(),
                es == output.entries@,
                fv == fetched@,
                fv.len() == es.len(),
                rest@ == fv.skip(i as int),
                cache == self.cache_view(),
                wv == views(tag_filter@),
                fetched_covers(es, cache, fv),
                env_entries_spec(es, i as int, label@, cache, fv, wv) == Ok::<
                    Seq<(Seq<char>, (Seq<char>, Seq<char>))>,
                    EnvStop,
                >(bindings_v(map.entries_view())),
                map.wf(),
            decreases es.len() - i,
        {
            let e = &output.entries[i];
            let f = rest.remove(0);
            assert(f == fv[i as int]);
            assert(rest@ =~= fv.skip(i + 1));
            if e.store_slug.is_some() {
                let mut m = String::from_str("output ");
                push_str(&mut m, quoted(label).as_str());
                push_str(&mut m, " references a cross-store secret (");
                push_str(&mut m, e.secret_path.as_str());
                push_str(&mut m, "); cross-store exec is not supported yet");
                assert(m@ == cross_store_msg(label@, e.secret_path@));
                assert(env_entries_spec(es, i + 1, label@, cache, fv, wv) == Err::<
                    Seq<(Seq<char>, (Seq<char>, Seq<char>))>,
                    EnvStop,
                >(EnvStop::CrossStore(m@)));
                proof {
                    lemma_env_entries_err(es, i + 1, es.len() as int, label@, cache, fv, wv);
                }
                assert(env_entries_spec(es, es.len() as int, label@, cache, fv, wv) == Err::<
                    Seq<(Seq<char>, (Seq<char>, Seq<char>))>,
                    EnvStop,
                >(EnvStop::CrossStore(m@)));
                let r = Err(HimitsuError::NotSupported(m));
                assert(env_map_holds(r, Err(EnvStop::CrossStore(m@))));
                return r;
            }
            let cached = self.decoded.get(e.secret_path.as_str());
            let res = match cached {
                Some(d) => bind_entry(&mut map, e, d, tag_filter),
                None => {
                    assert(needs_fetch(es[i as int], cache));
                    match f {
                        Some(Ok(d)) => bind_entry(&mut map, e, &d, tag_filter),
                        Some(Err(err)) => {
                            assert(value_of(i as int, es[i as int], cache, fv) == Err::<Decoded, HimitsuError>(err));
                            assert(env_entries_spec(es, i + 1, label@, cache, fv, wv) == Err::<
                                Seq<(Seq<char>, (Seq<char>, Seq<char>))>,
                                EnvStop,
                            >(EnvStop::Failed(err)));
                            proof {
                                lemma_env_entries_err(es, i + 1, es.len() as int, label@, cache, fv, wv);
                            }
                            return Err(err);
                        },
                        None => {
                            assert(false);
                            Ok(())
                        },
                    }
                },
            };
            match res {
                Err(err) => {
                    proof {
                        lemma_env_entries_err(es, i + 1, es.len() as int, label@, cache, fv, wv);
                    }
                    return Err(err);
                },
                Ok(()) => {},
            }
            i += 1;
        }
        let ghost ev = map.entries_view();
        let out = project_first(map);
        assert(map_vals(out.entries_view(), |v: String| v@) =~= map_vals(
            bindings_v(ev),
            |p: (Seq<char>, Seq<char>)| p.0,
        ));
        Ok(out)
    }

    /// The env map of the output named `label`: `None` when no output has
    /// that name, so the caller can read the label another way.
    pub fn env_map(
        &self,
        label: &str,
        tag_filter: &[String],
        fetched: Vec<Option<Result<Decoded, HimitsuError>>>,
    ) -> (r: Option<Result<StrMap<String>, HimitsuError>>)
        requires
            first_named(self.outputs_view(), label@) matches Some(i) ==> fetched_covers(
                self.outputs_view()[i].entries@,
                self.cache_view(),
                fetched@,
            ),
        ensures
            match first_named(self.outputs_view(), label@) {
                None => r is None,
                Some(i) => r matches Some(m) && env_map_holds(
                    m,
                    env_entries_spec(
                        self.outputs_view()[i].entries@,
                        self.outputs_view()[i].entries@.len() as int,
                        label@,
                        self.cache_view(),
                        fetched@,
                        views(tag_filter@),
                    ),
                ),
            },
    {
        match self.get(label) {
            None => None,
            Some(o) => Some(self.env_map_of(label, o, tag_filter, fetched)),
        }
    }
}


/// One decoded env-var binding of an output.
#[derive(Debug)]
pub struct DecodedEntry {
    pub env_key: String,
    pub secret_path: String,
    /// The store of a cross-store entry; `None` for the active store.
    pub store_slug: Option<String>,
    /// The value, checked to be text.
    pub value: String,
    pub expires_at: Option<Timestamp>,
}

/// A decoded entry as plain values.
pub struct DecodedView {
    pub env_key: Seq<char>,
    pub secret_path: Seq<char>,
    pub store_slug: Option<Seq<char>>,
    pub value: Seq<char>,
    pub expires_at: Option<Timestamp>,
}

impl DecodedEntry {
    pub open spec fn view(&self) -> DecodedView {
        DecodedView {
            env_key: self.env_key@,
            secret_path: self.secret_path@,
            store_slug: crate::outputs::opt_view(self.store_slug),
            value: self.value@,
            expires_at: self.expires_at,
        }
    }
}

impl DecodedEntry {
    /// The expired-secret warning of this entry at `now`, if it has expired.
    pub fn expiry_warning(&self, now: Timestamp) -> (r: Option<String>)
        ensures
            match crate::get::expiry_message_spec(self.secret_path@, self.expires_at, now) {
                Some(m) => r matches Some(s) && s@ == m,
                None => r is None,
            },
    {
        crate::get::expiry_message(self.secret_path.as_str(), self.expires_at, now)
    }
}

/// The views of decoded entries.
pub open spec fn decoded_views(v: Seq<DecodedEntry>) -> Seq<DecodedView> {
    v.map_values(|d: DecodedEntry| d.view())
}

/// Why an output cannot be decoded.
pub enum DecodeStop {
    /// A value could not be had (the error handed in).
    Failed(HimitsuError),
    /// A value that is not text (the start of the message).
    NotText(Seq<char>),
}

/// The start of the message for a value that is not text.
pub open spec fn not_utf8_msg(path: Seq<char>) -> Seq<char> {
    "non-UTF-8 secret at '"@ + path + "': "@
}

/// The decoded entries of the first `n` entries, in order and with
/// duplicates kept; the first failure stops.
pub open spec fn decode_spec(
    entries: Seq<ResolvedEntry>,
    n: int,
    cache: Seq<(Seq<char>, Decoded)>,
    fetched: Seq<Option<Result<Decoded, HimitsuError>>>,
) -> Result<Seq<DecodedView>, DecodeStop>
    decreases n,
{
    if n <= 0 {
        Ok(Seq::empty())
    } else {
        match decode_spec(entries, n - 1, cache, fetched) {
            Err(s) => Err(s),
            Ok(acc) => {
                let e = entries[n - 1];
                match value_of(n - 1, e, cache, fetched) {
                    Err(err) => Err(DecodeStop::Failed(err)),
                    Ok(d) => if !vstd::utf8::valid_utf8(d.data@) {
                        Err(DecodeStop::NotText(not_utf8_msg(e.secret_path@)))
                    } else {
                        Ok(
                            acc.push(
                                DecodedView {
                                    env_key: e.env_key@,
                                    secret_path: e.secret_path@,
                                    store_slug: crate::outputs::opt_view(e.store_slug),
                                    value: vstd::utf8::decode_utf8(d.data@),
                                    expires_at: d.expires_at,
                                },
                            ),
                        )
                    },
                }
            },
        }
    }
}

/// `r` is what `s` describes.
pub open spec fn decode_holds(r: Result<Vec<DecodedEntry>, HimitsuError>, s: Result<Seq<DecodedView>, DecodeStop>) -> bool {
    match s {
        Ok(v) => r matches Ok(out) && decoded_views(out@) == v,
        Err(DecodeStop::Failed(err)) => r == Err::<Vec<DecodedEntry>, HimitsuError>(err),
        Err(DecodeStop::NotText(start)) => r matches Err(e) && e is DecryptionFailed && has_prefix(
            e.detail(),
            start,
        ),
    }
}

proof fn lemma_decode_err(
    entries: Seq<ResolvedEntry>,
    k: int,
    n: int,
    cache: Seq<(Seq<char>, Decoded)>,
    fetched: Seq<Option<Result<Decoded, HimitsuError>>>,
)
    requires
        0 <= k <= n,
        decode_spec(entries, k, cache, fetched) is Err,
    ensures
        decode_spec(entries, n, cache, fetched) == decode_spec(entries, k, cache, fetched),
    decreases n - k,
{
    if k < n {
        lemma_decode_err(entries, k, n - 1, cache, fetched);
    }
}

/// A copy of an optional string.
fn copy_opt(o: &Option<String>) -> (r: Option<String>)
    ensures
        crate::outputs::opt_view(r) == crate::outputs::opt_view(*o),
{
    match o {
        Some(s) => Some(copy_string(s)),
        None => None,
    }
}

/// One decoded entry.
fn decode_one(e: &ResolvedEntry, d: &Decoded) -> (r: Result<DecodedEntry, HimitsuError>)
    ensures
        !vstd::utf8::valid_utf8(d.data@) ==> (r matches Err(err) && err is DecryptionFailed
            && has_prefix(err.detail(), not_utf8_msg(e.secret_path@))),
        vstd::utf8::valid_utf8(d.data@) ==> (r matches Ok(x) && x.view() == DecodedView {
            env_key: e.env_key@,
            secret_path: e.secret_path@,
            store_slug: crate::outputs::opt_view(e.store_slug),
            value: vstd::utf8::decode_utf8(d.data@),
            expires_at: d.expires_at,
        }),
{
    match utf8_string(copy_bytes(&d.data)) {
        Err(reason) => {
            let mut m = String::from_str("non-UTF-8 secret at '");
            push_str(&mut m, e.secret_path.as_str());
            push_str(&mut m, "': ");
            let ghost head = m@;
            push_str(&mut m, reason.as_str());
            assert(m@.take(head.len() as int) =~= head);
            Err(HimitsuError::DecryptionFailed(m))
        },
        Ok(value) => Ok(
            DecodedEntry {
                env_key: copy_string(&e.env_key),
                secret_path: copy_string(&e.secret_path),
                store_slug: copy_opt(&e.store_slug),
                value,
                expires_at: d.expires_at,
            },
        ),
    }
}

impl OutputResolver {
    /// Decodes an output's entries to text values, in order and with
    /// duplicate names kept (what to do with them is the caller's choice);
    /// `fetched` holds, for each entry that needs it, the decoded secret
    /// or the error of getting it (cross-store entries included).
    pub fn decode(&self, output: &ResolvedOutput, fetched: Vec<Option<Result<Decoded, HimitsuError>>>) -> (r:
        Result<Vec<DecodedEntry>, HimitsuError>)
        requires
            fetched_covers(output.entries@, self.cache_view(), fetched@),
        ensures
            decode_holds(
                r,
                decode_spec(output.entries@, output.entries@.len() as int, self.cache_view(), fetched@),
            ),
    {
        let ghost es = output.entries@;
        let ghost fv = fetched@;
        let ghost cache = self.cache_view();
        let mut out: Vec<DecodedEntry> = Vec::new();
        let mut rest = fetched;
        let mut i: usize = 0;
        assert(fv.skip(0) == fv);
        assert(decoded_views(out@) =~= Seq::<DecodedView>::empty());
        while i < output.entries.len()
            invariant
                i <= es.len(),
                es == output.entries@,
                fv == fetched@,
                fv.len() == es.len(),
                rest@ == fv.skip(i as int),
                cache == self.cache_view(),
                fetched_covers(es, cache, fv),
                decode_spec(es, i as int, cache, fv) == Ok::<Seq<DecodedView>, DecodeStop>(
                    decoded_views(out@),
                ),
            decreases es.len() - i,
        {
            let e = &output.entries[i];
            let f = rest.remove(0);
            assert(f == fv[i as int]);
            assert(rest@ =~= fv.skip(i + 1));
            let cached = if e.store_slug.is_none() {
                self.decoded.get(e.secret_path.as_str())
            } else {
                None
            };
            let res = match cached {
                Some(d) => decode_one(e, d),
                None => {
                    assert(needs_fetch(es[i as int], cache));
                    match f {
                        Some(Ok(d)) => decode_one(e, &d),
                        Some(Err(err)) => {
                            assert(value_of(i as int, es[i as int], cache, fv) == Err::<Decoded, HimitsuError>(err));
                            proof {
                                lemma_decode_err(es, i + 1, es.len() as int, cache, fv);
                            }
                            return Err(err);
                        },
                        None => {
                            assert(false);
                            return Err(HimitsuError::DecryptionFailed(String::new()));
                        },
                    }
                },
            };
            match res {
                Err(err) => {
                    proof {
                        lemma_decode_err(es, i + 1, es.len() as int, cache, fv);
                    }
                    return Err(err);
                },
                Ok(x) => {
                    let ghost before = out@;
                    out.push(x);
                    assert(decoded_views(out@) =~= decoded_views(before).push(x.view()));
                },
            }
            i += 1;
        }
        assert(es.take(es.len() as int) == es);
        Ok(out)
    }

    /// Resolves another outputs map against this scan's candidates, as a
    /// preview of an edited map, without scanning the store again.
    pub fn resolve_map(&self, outputs: &OutputsMap) -> (r: Result<Vec<ResolvedOutput>, HimitsuError>)
        ensures
            r is Ok <==> outputs_spec(outputs.entries_view(), self.candidates_view()) is Some,
            r matches Ok(v) ==> outputs_spec(outputs.entries_view(), self.candidates_view()) == Some(
                outputs_v(v@),
            ),
    {
        let mut cands: Vec<SecretCandidate> = Vec::new();
        let mut i: usize = 0;
        while i < self.candidates.len()
            invariant
                i <= self.candidates@.len(),
                cands_v(cands@) == cands_v(self.candidates@).take(i as int),
            decreases self.candidates.len() - i,
        {
            let c = &self.candidates[i];
            let tags = copy_strings(&c.tags);
            let n = SecretCandidate { path: copy_string(&c.path), tags };
            assert(tag_views(n.tags@) =~= views(n.tags@));
            assert(tag_views(c.tags@) =~= views(c.tags@));
            let ghost before = cands@;
            cands.push(n);
            assert(cands_v(cands@) =~= cands_v(before).push((c.path@, tag_views(c.tags@))));
            assert(cands_v(self.candidates@).take(i + 1) =~= cands_v(self.candidates@).take(i as int).push(
                (c.path@, tag_views(c.tags@)),
            ));
            i += 1;
        }
        assert(cands_v(self.candidates@).take(self.candidates@.len() as int) == cands_v(self.candidates@));
        let ctx = Context { available_secrets: cands };
        resolve_outputs(outputs, &ctx)
    }
}

/// Whether a project needs the scan at all: only when it defines outputs.
pub fn needs_scan(outputs: &OutputsMap) -> (r: bool)
    ensures
        r == (outputs.entries_view().len() > 0),
{
    !outputs.is_empty()
}

} // verus!
