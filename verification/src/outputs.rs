//! Output blocks: named lists of selectors and aliases, their in-memory
//! mutation, and their resolution into env-var bindings.
//!
//! A reference may name another store as `provider:org/repo#path` (the
//! provider is optional: `org/repo#path`).
use vstd::prelude::*;

use crate::env_dsl::{derive_key_chars, derive_key_spec, expand_brace_label, expand_spec, index_of};
use crate::error::HimitsuError;
use crate::labels::{valid_slug, validate_remote_slug};
use crate::selector::{selector_matches, selector_of, tag_views, SecretMatch, Selector, TokenView};
use crate::strmap::{insert_sorted, lookup, remove_key, StrMap};
use crate::text::{
    chars_of, contains_char, find_char, has_char, has_prefix, push_str, replace, replace_chars,
    slice_of, split, split_chars, starts_with, string_of, vec_views,
};

verus! {

// ── Definitions ──────────────────────────────────────────────────────────

/// One entry of the `selectors:` list of an output block.
#[derive(Debug, Clone, PartialEq, Eq)]
pub struct SelectorEntry(pub String);

/// One output block: selectors, and aliases from env-var name to reference.
#[derive(Debug, Clone, PartialEq, Eq)]
pub struct OutputDef {
    pub selectors: Vec<SelectorEntry>,
    pub aliases: StrMap<String>,
}

/// The `outputs:` block: output name to definition, sorted by name.
pub type OutputsMap = StrMap<OutputDef>;

impl OutputDef {
    /// An output block with no selectors and no aliases.
    pub fn empty() -> (r: OutputDef)
        ensures
            r.selectors@.len() == 0,
            r.aliases.entries_view().len() == 0,
    {
        OutputDef { selectors: Vec::new(), aliases: StrMap::new() }
    }
}

fn validate_output_name(name: &str) -> (r: Result<(), HimitsuError>)
    ensures
        r is Ok <==> name@.len() > 0,
        r matches Err(e) ==> e is InvalidConfig,
{
    let cs = chars_of(name);
    if cs.len() == 0 {
        return Err(HimitsuError::InvalidConfig(String::from_str("output name must not be empty")));
    }
    Ok(())
}

/// Adds or replaces one output definition; an empty name is refused and
/// leaves the map unchanged.
pub fn add_output_entry(outputs: &mut OutputsMap, name: &str, output: OutputDef) -> (r: Result<
    (),
    HimitsuError,
>)
    ensures
        r is Ok <==> name@.len() > 0,
        r is Ok ==> final(outputs).entries_view() == insert_sorted(
            old(outputs).entries_view(),
            name@,
            output,
        ),
        r is Err ==> final(outputs).entries_view() == old(outputs).entries_view(),
        r matches Err(e) ==> e is InvalidConfig,
        final(outputs).wf(),
{
    proof {
        use_type_invariant(&*outputs);
    }
    validate_output_name(name)?;
    outputs.insert(string_of(&chars_of(name)), output);
    Ok(())
}

/// Removes one output definition; a missing name is a no-op and an empty
/// name is refused.
pub fn remove_output(outputs: &mut OutputsMap, name: &str) -> (r: Result<(), HimitsuError>)
    ensures
        r is Ok <==> name@.len() > 0,
        r is Ok ==> final(outputs).entries_view() == remove_key(old(outputs).entries_view(), name@),
        r is Err ==> final(outputs).entries_view() == old(outputs).entries_view(),
        r matches Err(e) ==> e is InvalidConfig,
        final(outputs).wf(),
{
    proof {
        use_type_invariant(&*outputs);
    }
    validate_output_name(name)?;
    let _ = outputs.remove(name);
    Ok(())
}

/// Removing an output undoes adding it: after adding a name the map did not
/// hold, removing that name gives back the map as it was; removing a name the
/// map does not hold leaves it unchanged.
pub proof fn lemma_remove_output_undoes_add(
    m: Seq<(Seq<char>, OutputDef)>,
    name: Seq<char>,
    output: OutputDef,
)
    requires
        lookup(m, name) is None,
    ensures
        remove_key(insert_sorted(m, name, output), name) == m,
        remove_key(m, name) == m,
{
    crate::strmap::lemma_remove_insert_absent(m, name, output);
    crate::strmap::lemma_remove_absent(m, name);
}

/// A secret visible to the resolver.
#[derive(Debug, Clone, PartialEq, Eq)]
pub struct SecretCandidate {
    pub path: String,
    pub tags: Vec<String>,
}

/// What the caller knows of the store.
#[derive(Debug, Clone, PartialEq, Eq)]
pub struct Context {
    pub available_secrets: Vec<SecretCandidate>,
}

/// A node in an expanded output tree.
#[derive(Debug, PartialEq, Eq)]
pub enum OutputNode {
    /// Terminal reference to a secret in a store.
    Leaf { env_key: String, secret_path: String, store_slug: Option<String> },
    /// Nested map, sorted by key.
    Branch(StrMap<OutputNode>),
}

impl OutputNode {
    /// An empty branch.
    pub fn empty_branch() -> (r: OutputNode)
        ensures
            r matches OutputNode::Branch(m) && m.entries_view().len() == 0 && m.wf(),
    {
        OutputNode::Branch(StrMap::new())
    }
}

/// Wraps `node` in one branch per segment, outermost first:
/// `[a, b]` gives `{a: {b: node}}`.
pub fn wrap_in_segments(segments: &[&str], node: OutputNode) -> (r: OutputNode)
    ensures
        segments@.len() == 0 ==> r == node,
        segments@.len() > 0 ==> (r matches OutputNode::Branch(m) && m.entries_view().len() == 1
            && m.entries_view()[0].0 == segments@[0]@),
{
    let mut cur = node;
    let mut i: usize = segments.len();
    while i > 0
        invariant
            i <= segments@.len(),
            i == segments@.len() ==> cur == node,
            i < segments@.len() ==> (cur matches OutputNode::Branch(m) && m.entries_view().len()
                == 1 && m.entries_view()[0].0 == segments@[i as int]@),
        decreases i,
    {
        i -= 1;
        let mut m = StrMap::new();
        m.insert(string_of(&chars_of(segments[i])), cur);
        assert(m.entries_view().len() == 1);
        cur = OutputNode::Branch(m);
    }
    cur
}

/// One env-var binding.
#[derive(Debug, Clone, PartialEq, Eq)]
pub struct ResolvedEntry {
    pub env_key: String,
    pub secret_path: String,
    pub store_slug: Option<String>,
}

pub type EntryV = (Seq<char>, Seq<char>, Option<Seq<char>>);

pub open spec fn opt_view(o: Option<String>) -> Option<Seq<char>> {
    match o {
        Some(s) => Some(s@),
        None => None,
    }
}

impl ResolvedEntry {
    pub open spec fn view(&self) -> EntryV {
        (self.env_key@, self.secret_path@, opt_view(self.store_slug))
    }
}

pub open spec fn entries_v(es: Seq<ResolvedEntry>) -> Seq<EntryV> {
    es.map_values(|e: ResolvedEntry| e.view())
}

/// One output block fully expanded.
#[derive(Debug, Clone, PartialEq, Eq)]
pub struct ResolvedOutput {
    pub name: String,
    pub entries: Vec<ResolvedEntry>,
}

impl ResolvedOutput {
    pub open spec fn view(&self) -> (Seq<char>, Seq<EntryV>) {
        (self.name@, entries_v(self.entries@))
    }
}

// ── Spec: references ─────────────────────────────────────────────────────

/// The slug named by the store part of a reference (`provider:org/repo` or
/// `org/repo`).
pub open spec fn store_slug_of(store: Seq<char>) -> Option<Seq<char>> {
    let body = if has_char(store, ':') {
        store.skip(index_of(store, ':') + 1)
    } else {
        store
    };
    if valid_slug(body) {
        Some(body)
    } else {
        None
    }
}

/// A reference split into its store slug (for a cross-store reference) and
/// secret path; `None` when the reference is malformed.
pub open spec fn split_ref_spec(r: Seq<char>) -> Option<(Option<Seq<char>>, Seq<char>)> {
    if !has_char(r, '#') {
        Some((None, r))
    } else {
        let h = index_of(r, '#');
        let path = r.skip(h + 1);
        match store_slug_of(r.take(h)) {
            None => None,
            Some(slug) => if path.len() == 0 {
                None
            } else {
                Some((Some(slug), path))
            },
        }
    }
}

/// The last `/` segment of a path (possibly empty).
pub open spec fn last_piece(path: Seq<char>) -> Seq<char> {
    split(path, '/').last()
}

/// The env-var key a reference binds to when no alias names it.
pub open spec fn env_key_for_ref_spec(r: Seq<char>) -> Seq<char> {
    match split_ref_spec(r) {
        Some((_, p)) => derive_key_spec(last_piece(p)),
        None => derive_key_spec(r),
    }
}

/// A selector that names one secret rather than a set.
pub open spec fn is_concrete_spec(s: Seq<char>) -> bool {
    !has_prefix(s, "tag:"@) && !has_char(s, '*') && !has_char(s, '?')
}

pub open spec fn entry_from_ref_spec(key: Seq<char>, r: Seq<char>) -> Option<EntryV> {
    match split_ref_spec(r) {
        Some((slug, p)) => Some((key, p, slug)),
        None => None,
    }
}

pub type CandV = (Seq<char>, Seq<Seq<char>>);

pub open spec fn cands_v(c: Seq<SecretCandidate>) -> Seq<CandV> {
    c.map_values(|s: SecretCandidate| (s.path@, tag_views(s.tags@)))
}

/// Bindings for every candidate the selector matches, in candidate order.
pub open spec fn matching_entries(sel: Seq<Seq<TokenView>>, cands: Seq<CandV>) -> Seq<EntryV>
    decreases cands.len(),
{
    if cands.len() == 0 {
        Seq::empty()
    } else {
        let rest = matching_entries(sel, cands.drop_last());
        let c = cands.last();
        if selector_matches(sel, c.0, c.1) {
            rest.push((env_key_for_ref_spec(c.0), c.0, None))
        } else {
            rest
        }
    }
}

/// Bindings of one selector entry, or `None` when it is malformed.
pub open spec fn selector_entry_spec(s: Seq<char>, cands: Seq<CandV>) -> Option<Seq<EntryV>> {
    if is_concrete_spec(s) {
        match entry_from_ref_spec(env_key_for_ref_spec(s), s) {
            Some(e) => Some(seq![e]),
            None => None,
        }
    } else {
        match selector_of(s) {
            Some(sel) => Some(matching_entries(sel, cands)),
            None => None,
        }
    }
}

/// `$1` replaced by the capture.
pub open spec fn capture_subst(s: Seq<char>, capture: Seq<char>) -> Seq<char> {
    replace(s, seq!['$', '1'], capture)
}

pub open spec fn selectors_spec(sels: Seq<Seq<char>>, capture: Seq<char>, cands: Seq<CandV>) -> Option<
    Seq<EntryV>,
>
    decreases sels.len(),
{
    if sels.len() == 0 {
        Some(Seq::empty())
    } else {
        match (
            selectors_spec(sels.drop_last(), capture, cands),
            selector_entry_spec(capture_subst(sels.last(), capture), cands),
        ) {
            (Some(a), Some(b)) => Some(a + b),
            _ => None,
        }
    }
}

pub open spec fn aliases_spec(als: Seq<(Seq<char>, String)>, capture: Seq<char>) -> Option<
    Seq<EntryV>,
>
    decreases als.len(),
{
    if als.len() == 0 {
        Some(Seq::empty())
    } else {
        match (
            aliases_spec(als.drop_last(), capture),
            entry_from_ref_spec(als.last().0, capture_subst(als.last().1@, capture)),
        ) {
            (Some(a), Some(e)) => Some(a.push(e)),
            _ => None,
        }
    }
}

pub open spec fn selector_texts(s: Seq<SelectorEntry>) -> Seq<Seq<char>> {
    s.map_values(|e: SelectorEntry| e.0@)
}

/// Bindings of an output block for one capture: selectors first, then
/// aliases in key order.
pub open spec fn output_def_spec(def: OutputDef, capture: Seq<char>, cands: Seq<CandV>) -> Option<
    Seq<EntryV>,
> {
    match (
        selectors_spec(selector_texts(def.selectors@), capture, cands),
        aliases_spec(def.aliases.entries_view(), capture),
    ) {
        (Some(a), Some(b)) => Some(a + b),
        _ => None,
    }
}

pub open spec fn expansions_spec(
    exps: Seq<(Seq<char>, Seq<char>)>,
    def: OutputDef,
    cands: Seq<CandV>,
) -> Option<Seq<(Seq<char>, Seq<EntryV>)>>
    decreases exps.len(),
{
    if exps.len() == 0 {
        Some(Seq::empty())
    } else {
        match (
            expansions_spec(exps.drop_last(), def, cands),
            output_def_spec(def, exps.last().1, cands),
        ) {
            (Some(a), Some(es)) => Some(a.push((exps.last().0, es))),
            _ => None,
        }
    }
}

/// Every output of the map, names brace-expanded, in key order.
pub open spec fn outputs_spec(outs: Seq<(Seq<char>, OutputDef)>, cands: Seq<CandV>) -> Option<
    Seq<(Seq<char>, Seq<EntryV>)>,
>
    decreases outs.len(),
{
    if outs.len() == 0 {
        Some(Seq::empty())
    } else {
        match (
            outputs_spec(outs.drop_last(), cands),
            expansions_spec(expand_spec(outs.last().0), outs.last().1, cands),
        ) {
            (Some(a), Some(b)) => Some(a + b),
            _ => None,
        }
    }
}

// ── Implementation ───────────────────────────────────────────────────────

proof fn lemma_index_of_found(s: Seq<char>, c: char, i: int)
    requires
        0 <= i <= s.len(),
        i < s.len() ==> s[i] == c,
        forall|j: int| 0 <= j < i ==> s[j] != c,
    ensures
        index_of(s, c) == i,
    decreases i,
{
    if i > 0 {
        assert forall|j: int| 0 <= j < i - 1 implies s.drop_first()[j] != c by {
            assert(s.drop_first()[j] == s[j + 1]);
        }
        lemma_index_of_found(s.drop_first(), c, i - 1);
    }
}

/// Splits a reference into its store slug and secret path.
pub fn split_store_ref(r: &[char]) -> (res: Result<(Option<String>, String), HimitsuError>)
    ensures
        res is Ok <==> split_ref_spec(r@) is Some,
        res matches Ok((slug, p)) ==> split_ref_spec(r@) == Some((opt_view(slug), p@)),
        res matches Err(e) ==> e is InvalidReference,
{
    let h = match find_char(r, '#') {
        None => {
            return Ok((None, string_of(r)));
        },
        Some(h) => h,
    };
    proof {
        lemma_index_of_found(r@, '#', h as int);
    }
    let store = slice_of(r, 0, h);
    let path = slice_of(r, h + 1, r.len());
    assert(store@ == r@.take(h as int));
    assert(path@ == r@.skip(h + 1));
    let body = match find_char(&store, ':') {
        None => slice_of(&store, 0, store.len()),
        Some(c) => {
            proof {
                lemma_index_of_found(store@, ':', c as int);
            }
            slice_of(&store, c + 1, store.len())
        },
    };
    assert(body@ == (if has_char(store@, ':') {
        store@.skip(index_of(store@, ':') + 1)
    } else {
        store@
    }));
    let bs = string_of(&body);
    let slug = match validate_remote_slug(bs.as_str()) {
        Ok(_) => bs,
        Err(_) => {
            let mut msg = String::from_str("invalid store in reference: ");
            push_str(&mut msg, string_of(r).as_str());
            return Err(HimitsuError::InvalidReference(msg));
        },
    };
    if path.len() == 0 {
        let mut msg = String::from_str("missing secret path in reference: ");
        push_str(&mut msg, string_of(r).as_str());
        return Err(HimitsuError::InvalidReference(msg));
    }
    Ok((Some(slug), string_of(&path)))
}

fn last_piece_chars(p: &[char]) -> (r: Vec<char>)
    ensures
        r@ == last_piece(p@),
{
    let parts = split_chars(p, '/');
    proof {
        crate::text::lemma_split_nonempty(p@, '/');
    }
    let n = parts.len();
    assert(vec_views(parts@).last() == parts@[n - 1]@);
    slice_of(&parts[n - 1], 0, parts[n - 1].len())
}

/// The env-var key a reference binds to when no alias names it.
pub fn env_key_for_ref(r: &[char]) -> (k: Vec<char>)
    ensures
        k@ == env_key_for_ref_spec(r@),
{
    match split_store_ref(r) {
        Ok((_, p)) => {
            let pc = chars_of(p.as_str());
            let last = last_piece_chars(&pc);
            derive_key_chars(&last)
        },
        Err(_) => derive_key_chars(r),
    }
}

/// Whether a selector names one secret rather than a set.
pub fn is_concrete_ref(s: &[char]) -> (r: bool)
    ensures
        r == is_concrete_spec(s@),
{
    let prefix = ['t', 'a', 'g', ':'];
    proof {
        reveal_strlit("tag:");
        assert(prefix@ == "tag:"@);
    }
    !starts_with(s, &prefix) && !contains_char(s, '*') && !contains_char(s, '?')
}

fn entry_from_ref(key: Vec<char>, r: &[char]) -> (res: Result<ResolvedEntry, HimitsuError>)
    ensures
        res is Ok <==> entry_from_ref_spec(key@, r@) is Some,
        res matches Ok(e) ==> entry_from_ref_spec(key@, r@) == Some(e.view()),
{
    let (store_slug, secret_path) = split_store_ref(r)?;
    Ok(ResolvedEntry { env_key: string_of(&key), secret_path, store_slug })
}

proof fn candidates_view_step(c: Vec<SecretCandidate>, i: int)
    requires
        0 <= i < c@.len(),
    ensures
        cands_v(c@).take(i + 1) == cands_v(c@).take(i).push(
            (c@[i].path@, tag_views(c@[i].tags@)),
        ),
{
    assert(cands_v(c@).take(i + 1) =~= cands_v(c@).take(i).push(
        (c@[i].path@, tag_views(c@[i].tags@)),
    ));
}

/// Bindings of one selector entry.
pub fn resolve_selector_entry(selector: &[char], ctx: &Context) -> (r: Result<
    Vec<ResolvedEntry>,
    HimitsuError,
>)
    ensures
        r is Ok <==> selector_entry_spec(selector@, cands_v(ctx.available_secrets@)) is Some,
        r matches Ok(es) ==> selector_entry_spec(selector@, cands_v(ctx.available_secrets@))
            == Some(entries_v(es@)),
        !is_concrete_spec(selector@) ==> (r matches Err(e) ==> e is InvalidSelector),
{
    if is_concrete_ref(selector) {
        let key = env_key_for_ref(selector);
        let e = entry_from_ref(key, selector)?;
        let mut v: Vec<ResolvedEntry> = Vec::new();
        v.push(e);
        assert(entries_v(v@) =~= seq![e.view()]);
        return Ok(v);
    }
    let text = string_of(selector);
    let parsed = Selector::parse(text.as_str())?;
    let cands = &ctx.available_secrets;
    let ghost cv = cands_v(cands@);
    let mut out: Vec<ResolvedEntry> = Vec::new();
    let mut i: usize = 0;
    while i < cands.len()
        invariant
            i <= cands.len(),
            cv == cands_v(cands@),
            selector_of(selector@) == Some(parsed.view()),
            entries_v(out@) == matching_entries(parsed.view(), cv.take(i as int)),
        decreases cands.len() - i,
    {
        proof {
            candidates_view_step(*cands, i as int);
        }
        assert(cv.take(i + 1).drop_last() == cv.take(i as int));
        let c = &cands[i];
        let m = SecretMatch { path: c.path.as_str(), tags: c.tags.as_slice() };
        if parsed.matches(&m) {
            let pc = chars_of(c.path.as_str());
            let key = env_key_for_ref(&pc);
            let ghost before = out@;
            out.push(
                ResolvedEntry { env_key: string_of(&key), secret_path: string_of(&pc), store_slug: None },
            );
            assert(entries_v(out@) =~= entries_v(before).push((key@, pc@, None)));
        }
        i += 1;
    }
    assert(cv.take(cands.len() as int) == cv);
    Ok(out)
}

pub(crate) fn capture_subst_chars(s: &[char], capture: &[char]) -> (r: Vec<char>)
    ensures
        r@ == capture_subst(s@, capture@),
{
    let pat = ['$', '1'];
    assert(pat@ == seq!['$', '1']);
    replace_chars(s, &pat, capture)
}

/// Bindings of an output block for one capture value.
pub fn resolve_output_def(def: &OutputDef, capture: &[char], ctx: &Context) -> (r: Result<
    Vec<ResolvedEntry>,
    HimitsuError,
>)
    ensures
        r is Ok <==> output_def_spec(*def, capture@, cands_v(ctx.available_secrets@)) is Some,
        r matches Ok(es) ==> output_def_spec(*def, capture@, cands_v(ctx.available_secrets@))
            == Some(entries_v(es@)),
{
    let ghost cv = cands_v(ctx.available_secrets@);
    let ghost sv = selector_texts(def.selectors@);
    let mut entries: Vec<ResolvedEntry> = Vec::new();
    let mut i: usize = 0;
    while i < def.selectors.len()
        invariant
            i <= def.selectors.len(),
            cv == cands_v(ctx.available_secrets@),
            sv == selector_texts(def.selectors@),
            selectors_spec(sv.take(i as int), capture@, cv) == Some(entries_v(entries@)),
        decreases def.selectors.len() - i,
    {
        assert(sv.take(i + 1).drop_last() == sv.take(i as int));
        assert(sv.take(i + 1).last() == def.selectors@[i as int].0@);
        let sc = chars_of(def.selectors[i].0.as_str());
        let s2 = capture_subst_chars(&sc, capture);
        match resolve_selector_entry(&s2, ctx) {
            Ok(more) => {
                let ghost before = entries_v(entries@);
                let mut more = more;
                let ghost mv = entries_v(more@);
                entries.append(&mut more);
                assert(entries_v(entries@) =~= before + mv);
            },
            Err(e) => {
                proof {
                    lemma_selectors_prefix_none(sv, capture@, cv, i as int + 1);
                }
                return Err(e);
            },
        }
        assert(entries_v(entries@) == selectors_spec(sv.take(i + 1), capture@, cv)->0);
        i += 1;
    }
    assert(sv.take(def.selectors.len() as int) == sv);
    let ghost av = def.aliases.entries_view();
    let ghost sel_part = entries_v(entries@);
    let mut al: Vec<ResolvedEntry> = Vec::new();
    let mut j: usize = 0;
    while j < def.aliases.len()
        invariant
            j <= av.len(),
            av == def.aliases.entries_view(),
            aliases_spec(av.take(j as int), capture@) == Some(entries_v(al@)),
        decreases av.len() - j,
    {
        assert(av.take(j + 1).drop_last() == av.take(j as int));
        assert(av.take(j + 1).last() == av[j as int]);
        let key = def.aliases.key_at(j);
        let target = def.aliases.value_at(j);
        let tc = chars_of(target.as_str());
        let t2 = capture_subst_chars(&tc, capture);
        let kc = chars_of(key.as_str());
        match entry_from_ref(kc, &t2) {
            Ok(e) => {
                let ghost before = entries_v(al@);
                al.push(e);
                assert(entries_v(al@) =~= before.push(e.view()));
            },
            Err(e) => {
                proof {
                    lemma_aliases_prefix_none(av, capture@, j as int + 1);
                }
                return Err(e);
            },
        }
        j += 1;
    }
    assert(av.take(av.len() as int) == av);
    let ghost alias_part = entries_v(al@);
    entries.append(&mut al);
    assert(entries_v(entries@) =~= sel_part + alias_part);
    Ok(entries)
}

proof fn lemma_selectors_prefix_none(sels: Seq<Seq<char>>, capture: Seq<char>, cands: Seq<CandV>, k: int)
    requires
        0 <= k <= sels.len(),
        selectors_spec(sels.take(k), capture, cands) is None,
    ensures
        selectors_spec(sels, capture, cands) is None,
    decreases sels.len() - k,
{
    if k < sels.len() {
        assert(sels.take(k + 1).drop_last() == sels.take(k));
        lemma_selectors_prefix_none(sels, capture, cands, k + 1);
    } else {
        assert(sels.take(k) == sels);
    }
}

proof fn lemma_aliases_prefix_none(als: Seq<(Seq<char>, String)>, capture: Seq<char>, k: int)
    requires
        0 <= k <= als.len(),
        aliases_spec(als.take(k), capture) is None,
    ensures
        aliases_spec(als, capture) is None,
    decreases als.len() - k,
{
    if k < als.len() {
        assert(als.take(k + 1).drop_last() == als.take(k));
        lemma_aliases_prefix_none(als, capture, k + 1);
    } else {
        assert(als.take(k) == als);
    }
}

proof fn lemma_expansions_prefix_none(
    exps: Seq<(Seq<char>, Seq<char>)>,
    def: OutputDef,
    cands: Seq<CandV>,
    k: int,
)
    requires
        0 <= k <= exps.len(),
        expansions_spec(exps.take(k), def, cands) is None,
    ensures
        expansions_spec(exps, def, cands) is None,
    decreases exps.len() - k,
{
    if k < exps.len() {
        assert(exps.take(k + 1).drop_last() == exps.take(k));
        lemma_expansions_prefix_none(exps, def, cands, k + 1);
    } else {
        assert(exps.take(k) == exps);
    }
}

proof fn lemma_outputs_prefix_none(outs: Seq<(Seq<char>, OutputDef)>, cands: Seq<CandV>, k: int)
    requires
        0 <= k <= outs.len(),
        outputs_spec(outs.take(k), cands) is None,
    ensures
        outputs_spec(outs, cands) is None,
    decreases outs.len() - k,
{
    if k < outs.len() {
        assert(outs.take(k + 1).drop_last() == outs.take(k));
        lemma_outputs_prefix_none(outs, cands, k + 1);
    } else {
        assert(outs.take(k) == outs);
    }
}

pub open spec fn outputs_v(v: Seq<ResolvedOutput>) -> Seq<(Seq<char>, Seq<EntryV>)> {
    v.map_values(|o: ResolvedOutput| o.view())
}

/// Resolves every output of the map, expanding brace names and `$1`
/// captures; one result per expanded name, outputs in key order.
pub fn resolve_outputs(outputs: &OutputsMap, ctx: &Context) -> (r: Result<
    Vec<ResolvedOutput>,
    HimitsuError,
>)
    ensures
        r is Ok <==> outputs_spec(outputs.entries_view(), cands_v(ctx.available_secrets@)) is Some,
        r matches Ok(v) ==> outputs_spec(outputs.entries_view(), cands_v(ctx.available_secrets@))
            == Some(outputs_v(v@)),
{
    let ghost ov = outputs.entries_view();
    let ghost cv = cands_v(ctx.available_secrets@);
    let mut resolved: Vec<ResolvedOutput> = Vec::new();
    let mut i: usize = 0;
    while i < outputs.len()
        invariant
            i <= ov.len(),
            ov == outputs.entries_view(),
            cv == cands_v(ctx.available_secrets@),
            outputs_spec(ov.take(i as int), cv) == Some(outputs_v(resolved@)),
        decreases ov.len() - i,
    {
        assert(ov.take(i + 1).drop_last() == ov.take(i as int));
        assert(ov.take(i + 1).last() == ov[i as int]);
        let name = outputs.key_at(i);
        let def = outputs.value_at(i);
        let exps = expand_brace_label(name.as_str());
        let ghost xv = exps@.map_values(|e: (String, String)| (e.0@, e.1@));
        let ghost before = outputs_v(resolved@);
        let mut piece: Vec<ResolvedOutput> = Vec::new();
        let mut j: usize = 0;
        while j < exps.len()
            invariant
                j <= exps.len(),
                xv == exps@.map_values(|e: (String, String)| (e.0@, e.1@)),
                cv == cands_v(ctx.available_secrets@),
                expansions_spec(xv.take(j as int), *def, cv) == Some(outputs_v(piece@)),
                i < ov.len(),
                ov == outputs.entries_view(),
                xv == expand_spec(ov[i as int].0),
                *def == ov[i as int].1,
                outputs_spec(ov.take(i as int), cv) is Some,
            decreases exps.len() - j,
        {
            assert(xv.take(j + 1).drop_last() == xv.take(j as int));
            assert(xv.take(j + 1).last() == (exps@[j as int].0@, exps@[j as int].1@));
            let cap = chars_of(exps[j].1.as_str());
            match resolve_output_def(def, &cap, ctx) {
                Ok(entries) => {
                    let nm = string_of(&chars_of(exps[j].0.as_str()));
                    let ghost pb = outputs_v(piece@);
                    let o = ResolvedOutput { name: nm, entries };
                    piece.push(o);
                    assert(outputs_v(piece@) =~= pb.push(o.view()));
                },
                Err(e) => {
                    proof {
                        lemma_expansions_prefix_none(xv, *def, cv, j as int + 1);
                        assert(ov.take(i + 1).drop_last() == ov.take(i as int));
                        assert(ov.take(i + 1).last() == ov[i as int]);
                        assert(outputs_spec(ov.take(i + 1), cv) is None);
                        lemma_outputs_prefix_none(ov, cv, i as int + 1);
                    }
                    return Err(e);
                },
            }
            j += 1;
        }
        assert(xv.take(exps.len() as int) == xv);
        let ghost pv = outputs_v(piece@);
        resolved.append(&mut piece);
        assert(outputs_v(resolved@) =~= before + pv);
        i += 1;
    }
    assert(ov.take(ov.len() as int) == ov);
    Ok(resolved)
}

// ── Entries of the legacy flat form ──────────────────────────────────────

/// A string-or-alias entry of the flat form outputs are migrated from.
#[derive(Debug, Clone, PartialEq, Eq)]
pub enum OutputEntry {
    Selector(SelectorEntry),
    Alias { key: String, reference: String },
}

/// An alias entry read from a mapping: it must hold exactly one pair.
pub fn output_entry_from_alias(pairs: Vec<(String, String)>) -> (r: Result<OutputEntry, String>)
    ensures
        pairs@.len() == 1 ==> (r matches Ok(OutputEntry::Alias { key, reference }) && key == pairs@[0].0
            && reference == pairs@[0].1),
        pairs@.len() != 1 ==> (r matches Err(m) && m@ == "alias entry must have exactly one key-value pair"@),
{
    if pairs.len() != 1 {
        return Err(String::from_str("alias entry must have exactly one key-value pair"));
    }
    let mut pairs = pairs;
    let (key, reference) = pairs.remove(0);
    Ok(OutputEntry::Alias { key, reference })
}

} // verus!
