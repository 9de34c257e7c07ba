//! `migrate envs`: the legacy `envs:` block of a project config rewritten
//! as an `outputs:` block, the legacy environment field of a secret folded
//! into its tags, and the summary printed afterwards.
use vstd::prelude::*;

use crate::env_resolver::{join_strings, joined};
use crate::error::HimitsuError;
use crate::env_dsl::{trim, trim_chars};
use crate::tags::{valid_tag, validate_tag};
use crate::yaml::{
    copy_node, lemma_mapping_view, lemma_sequence_view, pair_views, parse_yaml, to_yaml, untag,
    untag_node, yaml_parsed, yaml_text, YamlNode, YamlView,
};
use crate::text::{chars_of, copy_string, debug_quoted, has_prefix, push_str, quoted, slice_eq, starts_with, views};

verus! {

// ── The `envs:` block ────────────────────────────────────────────────────

/// One entry of a legacy env, as read from YAML.
#[derive(Debug, Clone, PartialEq, Eq)]
pub enum LegacyEntry {
    /// A selector string (a path, a glob, or `tag:<name>`).
    Selector(String),
    /// A mapping of alias keys to selectors.
    Aliases(Vec<(String, String)>),
    /// Anything else.
    Other,
}

/// A legacy env: its name and its entries (`None` when they are not a
/// YAML sequence).
#[derive(Debug, Clone, PartialEq, Eq)]
pub struct LegacyEnv {
    pub name: String,
    pub entries: Option<Vec<LegacyEntry>>,
}

/// An output definition as the migration writes it.
#[derive(Debug, Clone, PartialEq, Eq)]
pub struct MigratedOutput {
    pub name: String,
    pub selectors: Vec<String>,
    /// Alias keys and their selectors, in order of first appearance.
    pub aliases: Vec<(String, String)>,
}

/// A legacy entry as plain values.
pub enum EntryModel {
    Selector(Seq<char>),
    Aliases(Seq<(Seq<char>, Seq<char>)>),
    Other,
}

/// The views of key/value pairs.
pub open spec fn kv_views(v: Seq<(String, String)>) -> Seq<(Seq<char>, Seq<char>)> {
    v.map_values(|p: (String, String)| (p.0@, p.1@))
}

/// The model of an entry.
pub open spec fn entry_model(e: LegacyEntry) -> EntryModel {
    match e {
        LegacyEntry::Selector(s) => EntryModel::Selector(s@),
        LegacyEntry::Aliases(m) => EntryModel::Aliases(kv_views(m@)),
        LegacyEntry::Other => EntryModel::Other,
    }
}

/// The models of a list of entries.
pub open spec fn entry_models(v: Seq<LegacyEntry>) -> Seq<EntryModel> {
    v.map_values(|e: LegacyEntry| entry_model(e))
}

/// Where key `k` first occurs in `m` (its length when it does not).
pub open spec fn first_key(m: Seq<(Seq<char>, Seq<char>)>, k: Seq<char>) -> int
    decreases m.len(),
{
    if m.len() == 0 {
        0
    } else if m[0].0 == k {
        0
    } else {
        1 + first_key(m.drop_first(), k)
    }
}

/// A mapping insertion: the value of an existing key is replaced in place,
/// a new key goes last.
pub open spec fn map_insert(m: Seq<(Seq<char>, Seq<char>)>, k: Seq<char>, v: Seq<char>) -> Seq<
    (Seq<char>, Seq<char>),
> {
    if first_key(m, k) < m.len() {
        m.update(first_key(m, k), (k, v))
    } else {
        m.push((k, v))
    }
}

/// Successive insertions.
pub open spec fn map_insert_all(m: Seq<(Seq<char>, Seq<char>)>, pairs: Seq<(Seq<char>, Seq<char>)>) -> Seq<
    (Seq<char>, Seq<char>),
>
    decreases pairs.len(),
{
    if pairs.len() == 0 {
        m
    } else {
        map_insert(map_insert_all(m, pairs.drop_last()), pairs.last().0, pairs.last().1)
    }
}

/// The message for alias maps without exactly one key.
pub open spec fn one_key_msg() -> Seq<char> {
    "legacy env alias entries must have exactly one key"@
}

/// The message for entries that are neither strings nor maps.
pub open spec fn entry_kind_msg() -> Seq<char> {
    "legacy env entry must be a string or single-key map"@
}

/// The message for env entries that are not sequences.
pub open spec fn sequence_msg() -> Seq<char> {
    "legacy env entries must be YAML sequences"@
}

/// The message when the `envs` block is not a mapping.
pub open spec fn mapping_msg() -> Seq<char> {
    "legacy `envs` block must be a mapping"@
}

/// The selectors (plain, in order), `tag:` selectors (in order) and aliases
/// the entries give, or the message of the first bad entry.
pub open spec fn split_entries(es: Seq<EntryModel>) -> Result<
    (Seq<Seq<char>>, Seq<Seq<char>>, Seq<(Seq<char>, Seq<char>)>),
    Seq<char>,
>
    decreases es.len(),
{
    if es.len() == 0 {
        Ok((Seq::empty(), Seq::empty(), Seq::empty()))
    } else {
        match split_entries(es.drop_last()) {
            Err(m) => Err(m),
            Ok((sel, tags, al)) => match es.last() {
                EntryModel::Selector(s) => if has_prefix(s, "tag:"@) {
                    Ok((sel, tags.push(s), al))
                } else {
                    Ok((sel.push(s), tags, al))
                },
                EntryModel::Aliases(m) => if m.len() != 1 {
                    Err(one_key_msg())
                } else {
                    Ok((sel, tags, map_insert(al, m[0].0, m[0].1)))
                },
                EntryModel::Other => Err(entry_kind_msg()),
            },
        }
    }
}

/// The output an env becomes: its plain selectors, then its `tag:`
/// selectors joined by `+` as one selector (when there are any), and its
/// aliases.
pub open spec fn output_spec(es: Seq<EntryModel>) -> Result<
    (Seq<Seq<char>>, Seq<(Seq<char>, Seq<char>)>),
    Seq<char>,
> {
    match split_entries(es) {
        Err(m) => Err(m),
        Ok((sel, tags, al)) => Ok(
            (
                if tags.len() > 0 {
                    sel.push(joined(tags, "+"@))
                } else {
                    sel
                },
                al,
            ),
        ),
    }
}

/// Inserts `(k, v)` into an ordered mapping.
fn insert_pair(m: &mut Vec<(String, String)>, k: &str, v: &str)
    ensures
        kv_views(final(m)@) == map_insert(kv_views(old(m)@), k@, v@),
{
    let ghost mv = kv_views(m@);
    let kc = chars_of(k);
    let mut i: usize = 0;
    assert(mv.skip(0) == mv);
    while i < m.len()
        invariant
            i <= m@.len(),
            mv == kv_views(m@),
            mv == kv_views(old(m)@),
            kc@ == k@,
            first_key(mv, k@) == i + first_key(mv.skip(i as int), k@),
        decreases m.len() - i,
    {
        assert(mv[i as int] == (m@[i as int].0@, m@[i as int].1@));
        assert(mv.skip(i as int)[0] == mv[i as int]);
        if slice_eq(&chars_of(m[i].0.as_str()), &kc) {
            assert(first_key(mv.skip(i as int), k@) == 0);
            assert(first_key(mv, k@) == i);
            m.set(i, (String::from_str(k), String::from_str(v)));
            assert(kv_views(m@) =~= mv.update(i as int, (k@, v@)));
            return;
        }
        assert(mv.skip(i as int).drop_first() == mv.skip(i + 1));
        i += 1;
    }
    assert(mv.skip(i as int) =~= Seq::<(Seq<char>, Seq<char>)>::empty());
    let ghost before = m@;
    m.push((String::from_str(k), String::from_str(v)));
    assert(kv_views(m@) =~= kv_views(before).push((k@, v@)));
}

/// The views of an output.
pub open spec fn output_view(o: MigratedOutput) -> (Seq<char>, Seq<Seq<char>>, Seq<(Seq<char>, Seq<char>)>) {
    (o.name@, views(o.selectors@), kv_views(o.aliases@))
}

/// The model of a legacy env.
pub open spec fn env_model(e: LegacyEnv) -> (Seq<char>, Option<Seq<EntryModel>>) {
    (
        e.name@,
        match e.entries {
            Some(v) => Some(entry_models(v@)),
            None => None,
        },
    )
}

/// The outputs the legacy envs become, in order, or the message of the
/// first problem: entries that are not a sequence, or a bad entry.
pub open spec fn envs_spec(envs: Seq<(Seq<char>, Option<Seq<EntryModel>>)>) -> Result<
    Seq<(Seq<char>, Seq<Seq<char>>, Seq<(Seq<char>, Seq<char>)>)>,
    Seq<char>,
>
    decreases envs.len(),
{
    if envs.len() == 0 {
        Ok(Seq::empty())
    } else {
        match envs_spec(envs.drop_last()) {
            Err(m) => Err(m),
            Ok(outs) => match envs.last().1 {
                None => Err(sequence_msg()),
                Some(es) => match output_spec(es) {
                    Err(m) => Err(m),
                    Ok((sel, al)) => Ok(outs.push((envs.last().0, sel, al))),
                },
            },
        }
    }
}

/// The output one legacy env becomes.
fn translate_env(name: &str, entries: &Vec<LegacyEntry>) -> (r: Result<MigratedOutput, HimitsuError>)
    ensures
        match output_spec(entry_models(entries@)) {
            Ok((sel, al)) => r matches Ok(o) && output_view(o) == (name@, sel, al),
            Err(m) => r matches Err(e) && e is InvalidConfig && e.detail() == m,
        },
{
    let ghost ev = entry_models(entries@);
    let mut sel: Vec<String> = Vec::new();
    let mut tags: Vec<String> = Vec::new();
    let mut al: Vec<(String, String)> = Vec::new();
    let tag_prefix = chars_of("tag:");
    proof {
        reveal_strlit("tag:");
    }
    let mut i: usize = 0;
    assert(ev.take(0) =~= Seq::<EntryModel>::empty());
    assert(views(sel@) =~= Seq::<Seq<char>>::empty());
    assert(views(tags@) =~= Seq::<Seq<char>>::empty());
    assert(kv_views(al@) =~= Seq::<(Seq<char>, Seq<char>)>::empty());
    while i < entries.len()
        invariant
            i <= entries@.len(),
            ev == entry_models(entries@),
            tag_prefix@ == "tag:"@,
            split_entries(ev.take(i as int)) == Ok::<_, Seq<char>>((views(sel@), views(tags@), kv_views(al@))),
        decreases entries.len() - i,
    {
        assert(ev.take(i + 1).drop_last() == ev.take(i as int));
        assert(ev.take(i + 1).last() == ev[i as int]);
        assert(ev[i as int] == entry_model(entries@[i as int]));
        match &entries[i] {
            LegacyEntry::Selector(s) => {
                if starts_with(&chars_of(s.as_str()), &tag_prefix) {
                    let ghost b = tags@;
                    tags.push(copy_string(s));
                    assert(views(tags@) =~= views(b).push(s@));
                } else {
                    let ghost b = sel@;
                    sel.push(copy_string(s));
                    assert(views(sel@) =~= views(b).push(s@));
                }
            },
            LegacyEntry::Aliases(m) => {
                if m.len() != 1 {
                    proof {
                        lemma_split_err_sticks(ev, i as int + 1);
                    }
                    return Err(HimitsuError::InvalidConfig(
                        String::from_str("legacy env alias entries must have exactly one key"),
                    ));
                }
                assert(kv_views(m@)[0] == (m@[0].0@, m@[0].1@));
                insert_pair(&mut al, m[0].0.as_str(), m[0].1.as_str());
            },
            LegacyEntry::Other => {
                proof {
                    lemma_split_err_sticks(ev, i as int + 1);
                }
                return Err(HimitsuError::InvalidConfig(
                    String::from_str("legacy env entry must be a string or single-key map"),
                ));
            },
        }
        i += 1;
    }
    assert(ev.take(entries@.len() as int) == ev);
    if tags.len() > 0 {
        let j = join_strings(tags.as_slice(), "+");
        let ghost b = sel@;
        sel.push(j);
        assert(views(sel@) =~= views(b).push(joined(views(tags@), "+"@)));
    }
    Ok(MigratedOutput { name: String::from_str(name), selectors: sel, aliases: al })
}

/// Once a prefix of the entries fails, every longer prefix fails alike.
proof fn lemma_split_err_sticks(es: Seq<EntryModel>, k: int)
    requires
        0 <= k <= es.len(),
        split_entries(es.take(k)) is Err,
    ensures
        split_entries(es) == split_entries(es.take(k)),
    decreases es.len() - k,
{
    if k < es.len() {
        assert(es.take(k + 1).drop_last() == es.take(k));
        lemma_split_err_sticks(es, k + 1);
    } else {
        assert(es.take(k) == es);
    }
}

/// Once a prefix of the envs fails, every longer prefix fails alike.
proof fn lemma_envs_err_sticks(envs: Seq<(Seq<char>, Option<Seq<EntryModel>>)>, k: int)
    requires
        0 <= k <= envs.len(),
        envs_spec(envs.take(k)) is Err,
    ensures
        envs_spec(envs) == envs_spec(envs.take(k)),
    decreases envs.len() - k,
{
    if k < envs.len() {
        assert(envs.take(k + 1).drop_last() == envs.take(k));
        lemma_envs_err_sticks(envs, k + 1);
    } else {
        assert(envs.take(k) == envs);
    }
}

/// The models of a list of envs.
pub open spec fn env_models(v: Seq<LegacyEnv>) -> Seq<(Seq<char>, Option<Seq<EntryModel>>)> {
    v.map_values(|e: LegacyEnv| env_model(e))
}

/// The views of a list of outputs.
pub open spec fn output_views(v: Seq<MigratedOutput>) -> Seq<
    (Seq<char>, Seq<Seq<char>>, Seq<(Seq<char>, Seq<char>)>),
> {
    v.map_values(|o: MigratedOutput| output_view(o))
}

/// Rewrites the legacy `envs:` block (`None` when it is not a mapping) as
/// output definitions, one per env in order: plain selectors kept, `tag:`
/// selectors joined by `+` into one, single-key maps become aliases.
pub fn translate_envs_to_outputs(envs: Option<Vec<LegacyEnv>>) -> (r: Result<Vec<MigratedOutput>, HimitsuError>)
    ensures
        match envs {
            None => r matches Err(e) && e is InvalidConfig && e.detail() == mapping_msg(),
            Some(v) => match envs_spec(env_models(v@)) {
                Ok(outs) => r matches Ok(o) && output_views(o@) == outs,
                Err(m) => r matches Err(e) && e is InvalidConfig && e.detail() == m,
            },
        },
{
    match envs {
        Some(v) => translate_all(v),
        None => Err(HimitsuError::InvalidConfig(String::from_str("legacy `envs` block must be a mapping"))),
    }
}

/// The outputs of every legacy env, in order.
fn translate_all(envs: Vec<LegacyEnv>) -> (r: Result<Vec<MigratedOutput>, HimitsuError>)
    ensures
        match envs_spec(env_models(envs@)) {
            Ok(outs) => r matches Ok(o) && output_views(o@) == outs,
            Err(m) => r matches Err(e) && e is InvalidConfig && e.detail() == m,
        },
{
    let ghost mv = env_models(envs@);
    let mut out: Vec<MigratedOutput> = Vec::new();
    let mut i: usize = 0;
    assert(mv.take(0) =~= Seq::<(Seq<char>, Option<Seq<EntryModel>>)>::empty());
    assert(output_views(out@) =~= Seq::<(Seq<char>, Seq<Seq<char>>, Seq<(Seq<char>, Seq<char>)>)>::empty());
    while i < envs.len()
        invariant
            i <= envs@.len(),
            mv == env_models(envs@),
            envs_spec(mv.take(i as int)) == Ok::<_, Seq<char>>(output_views(out@)),
        decreases envs.len() - i,
    {
        assert(mv.take(i + 1).drop_last() == mv.take(i as int));
        assert(mv.take(i + 1).last() == mv[i as int]);
        assert(mv[i as int] == env_model(envs@[i as int]));
        match &envs[i].entries {
            None => {
                proof {
                    lemma_envs_err_sticks(mv, i as int + 1);
                }
                return Err(HimitsuError::InvalidConfig(String::from_str("legacy env entries must be YAML sequences")));
            },
            Some(es) => match translate_env(envs[i].name.as_str(), es) {
                Ok(o) => {
                    let ghost b = out@;
                    out.push(o);
                    assert(output_views(out@) =~= output_views(b).push(output_view(o)));
                },
                Err(e) => {
                    proof {
                        lemma_envs_err_sticks(mv, i as int + 1);
                    }
                    return Err(e);
                },
            },
        }
        i += 1;
    }
    assert(mv.take(envs@.len() as int) == mv);
    Ok(out)
}

// ── The project config file ──────────────────────────────────────────────

/// Alias pairs that only count: `n` empty pairs.
pub open spec fn placeholder_pairs(n: nat) -> Seq<(Seq<char>, Seq<char>)> {
    Seq::new(n, |i: int| (Seq::<char>::empty(), Seq::<char>::empty()))
}

/// An entry of a legacy env read from YAML (tags looked through): a string
/// is a selector; a mapping of one string key to a string an alias; a
/// mapping of another size an alias entry of that many pairs (refused
/// later); anything else is neither.
pub open spec fn yaml_entry(v: YamlView) -> EntryModel {
    match untag(v) {
        YamlView::Str(s) => EntryModel::Selector(s),
        YamlView::Mapping(ps) => if ps.len() != 1 {
            EntryModel::Aliases(placeholder_pairs(ps.len()))
        } else {
            match (ps[0].0, ps[0].1) {
                (YamlView::Str(k), YamlView::Str(x)) => EntryModel::Aliases(seq![(k, x)]),
                _ => EntryModel::Other,
            }
        },
        _ => EntryModel::Other,
    }
}

/// The entries of a legacy env, when they are a YAML sequence.
pub open spec fn yaml_entries(v: YamlView) -> Option<Seq<EntryModel>> {
    match untag(v) {
        YamlView::Sequence(xs) => Some(xs.map_values(|x: YamlView| yaml_entry(x))),
        _ => None,
    }
}

/// The name an env key carries (the text of a string key).
pub open spec fn key_name(k: YamlView) -> Seq<char> {
    match k {
        YamlView::Str(s) => s,
        _ => Seq::empty(),
    }
}

/// The legacy envs of an `envs` value, when it is a mapping.
pub open spec fn yaml_envs(v: YamlView) -> Option<Seq<(Seq<char>, Option<Seq<EntryModel>>)>> {
    match untag(v) {
        YamlView::Mapping(ps) => Some(
            ps.map_values(|p: (YamlView, YamlView)| (key_name(p.0), yaml_entries(p.1))),
        ),
        _ => None,
    }
}

pub open spec fn str_views(s: Seq<Seq<char>>) -> Seq<YamlView> {
    s.map_values(|x: Seq<char>| YamlView::Str(x))
}

pub open spec fn str_pairs(s: Seq<(Seq<char>, Seq<char>)>) -> Seq<(YamlView, YamlView)> {
    s.map_values(|p: (Seq<char>, Seq<char>)| (YamlView::Str(p.0), YamlView::Str(p.1)))
}

/// An output as YAML: its selectors, then its aliases.
pub open spec fn output_yaml(sel: Seq<Seq<char>>, al: Seq<(Seq<char>, Seq<char>)>) -> YamlView {
    YamlView::Mapping(
        seq![
            (YamlView::Str("selectors"@), YamlView::Sequence(str_views(sel))),
            (YamlView::Str("aliases"@), YamlView::Mapping(str_pairs(al))),
        ],
    )
}

/// The `outputs` mapping: each env's key with the output it became.
pub open spec fn outputs_yaml(
    keys: Seq<YamlView>,
    outs: Seq<(Seq<char>, Seq<Seq<char>>, Seq<(Seq<char>, Seq<char>)>)>,
) -> YamlView {
    YamlView::Mapping(Seq::new(outs.len(), |i: int| (keys[i], output_yaml(outs[i].1, outs[i].2))))
}

/// Where key `k` sits in a mapping (its length when absent).
pub open spec fn key_index(m: Seq<(YamlView, YamlView)>, k: YamlView) -> int
    decreases m.len(),
{
    if m.len() == 0 {
        0
    } else if m[0].0 == k {
        0
    } else {
        1 + key_index(m.drop_first(), k)
    }
}

/// A mapping insertion (`Mapping::insert`): an existing key keeps its place
/// and gets the new value; a new key goes last.
pub open spec fn map_put(m: Seq<(YamlView, YamlView)>, k: YamlView, v: YamlView) -> Seq<
    (YamlView, YamlView),
> {
    if key_index(m, k) < m.len() {
        m.update(key_index(m, k), (m[key_index(m, k)].0, v))
    } else {
        m.push((k, v))
    }
}

/// `v` with the mapping under its tags replaced by `m`.
pub open spec fn retag(v: YamlView, m: Seq<(YamlView, YamlView)>) -> YamlView
    decreases v,
{
    match v {
        YamlView::Tagged(t, b) => YamlView::Tagged(t, Box::new(retag(*b, m))),
        _ => YamlView::Mapping(m),
    }
}

/// What migrating a project config does to its YAML.
pub enum ConfigMigrationSpec {
    /// The document is not a mapping.
    NotMapping,
    /// There is no `envs` key; nothing changes.
    NoEnvs,
    /// The legacy block is refused, with the message.
    Failed(Seq<char>),
    /// The number of outputs written, and the new document.
    Rewritten(nat, YamlView),
}

/// The migration of a config document: the `envs` entry is taken out (the
/// last entry moving into its place), its envs become outputs, and the
/// `outputs` key is set to them.
pub open spec fn migrated_config(root: YamlView) -> ConfigMigrationSpec {
    match untag(root) {
        YamlView::Mapping(m) => {
            let i = key_index(m, YamlView::Str("envs"@));
            if i >= m.len() {
                ConfigMigrationSpec::NoEnvs
            } else {
                let rest = m.update(i, m.last()).drop_last();
                match yaml_envs(m[i].1) {
                    None => ConfigMigrationSpec::Failed(mapping_msg()),
                    Some(envs) => match envs_spec(envs) {
                        Err(msg) => ConfigMigrationSpec::Failed(msg),
                        Ok(outs) => ConfigMigrationSpec::Rewritten(
                            outs.len(),
                            retag(
                                root,
                                map_put(
                                    rest,
                                    YamlView::Str("outputs"@),
                                    outputs_yaml(
                                        untag(m[i].1)->Mapping_0.map_values(
                                            |p: (YamlView, YamlView)| p.0,
                                        ),
                                        outs,
                                    ),
                                ),
                            ),
                        ),
                    },
                }
            }
        },
        _ => ConfigMigrationSpec::NotMapping,
    }
}

/// A legacy entry read from YAML.
fn entry_of_node(n: &YamlNode) -> (r: LegacyEntry)
    ensures
        entry_model(r) == yaml_entry(n@),
{
    match untag_node(n) {
        YamlNode::Str(s) => LegacyEntry::Selector(copy_string(s)),
        YamlNode::Mapping(ps) => {
            proof {
                lemma_mapping_view(*ps);
            }
            if ps.len() != 1 {
                let mut al: Vec<(String, String)> = Vec::new();
                let mut i: usize = 0;
                while i < ps.len()
                    invariant
                        i <= ps@.len(),
                        kv_views(al@) == placeholder_pairs(i as nat),
                    decreases ps.len() - i,
                {
                    let ghost b = al@;
                    let e0 = String::new();
                    let e1 = String::new();
                    assert(e0@ =~= Seq::<char>::empty() && e1@ =~= Seq::<char>::empty());
                    al.push((e0, e1));
                    assert(kv_views(al@) =~= kv_views(b).push((e0@, e1@)));
                    assert(kv_views(al@) =~= placeholder_pairs((i + 1) as nat));
                    i += 1;
                }
                LegacyEntry::Aliases(al)
            } else {
                match (&ps[0].0, &ps[0].1) {
                    (YamlNode::Str(k), YamlNode::Str(x)) => {
                        let al = vec![(copy_string(k), copy_string(x))];
                        assert(kv_views(al@) =~= seq![(k@, x@)]);
                        LegacyEntry::Aliases(al)
                    },
                    _ => LegacyEntry::Other,
                }
            }
        },
        _ => LegacyEntry::Other,
    }
}

/// The entries of a legacy env read from YAML, when they are a sequence.
fn entries_of_node(n: &YamlNode) -> (r: Option<Vec<LegacyEntry>>)
    ensures
        match r {
            Some(v) => yaml_entries(n@) == Some(entry_models(v@)),
            None => yaml_entries(n@) is None,
        },
{
    match untag_node(n) {
        YamlNode::Sequence(xs) => {
            proof {
                lemma_sequence_view(*xs);
            }
            let ghost xv = xs@.map_values(|x: YamlNode| x@);
            let mut out: Vec<LegacyEntry> = Vec::new();
            let mut i: usize = 0;
            while i < xs.len()
                invariant
                    i <= xs@.len(),
                    xv == xs@.map_values(|x: YamlNode| x@),
                    entry_models(out@) == xv.take(i as int).map_values(|x: YamlView| yaml_entry(x)),
                decreases xs.len() - i,
            {
                let e = entry_of_node(&xs[i]);
                let ghost b = out@;
                out.push(e);
                assert(entry_models(out@) =~= entry_models(b).push(entry_model(e)));
                assert(xv.take(i + 1) =~= xv.take(i as int).push(xv[i as int]));
                assert(xv.take(i + 1).map_values(|x: YamlView| yaml_entry(x)) =~= xv.take(
                    i as int,
                ).map_values(|x: YamlView| yaml_entry(x)).push(yaml_entry(xv[i as int])));
                i += 1;
            }
            assert(xv.take(xs@.len() as int) == xv);
            Some(out)
        },
        _ => None,
    }
}

/// The legacy envs of the pairs of an `envs` mapping read from YAML.
fn envs_of_pairs(ps: &Vec<(YamlNode, YamlNode)>) -> (r: Vec<LegacyEnv>)
    ensures
        env_models(r@) == pair_views(ps@).map_values(
            |p: (YamlView, YamlView)| (key_name(p.0), yaml_entries(p.1)),
        ),
{
    let ghost pv = pair_views(ps@);
    let ghost f = |p: (YamlView, YamlView)| (key_name(p.0), yaml_entries(p.1));
    let mut out: Vec<LegacyEnv> = Vec::new();
    let mut i: usize = 0;
    while i < ps.len()
        invariant
            i <= ps@.len(),
            pv == pair_views(ps@),
            f == (|p: (YamlView, YamlView)| (key_name(p.0), yaml_entries(p.1))),
            env_models(out@) == pv.take(i as int).map_values(f),
        decreases ps.len() - i,
    {
        let name = match &ps[i].0 {
            YamlNode::Str(s) => copy_string(s),
            _ => String::new(),
        };
        let e = LegacyEnv { name, entries: entries_of_node(&ps[i].1) };
        let ghost b = out@;
        out.push(e);
        assert(pv[i as int] == (ps@[i as int].0@, ps@[i as int].1@));
        assert(env_models(out@) =~= env_models(b).push(env_model(e)));
        assert(pv.take(i + 1) =~= pv.take(i as int).push(pv[i as int]));
        assert(pv.take(i + 1).map_values(f) =~= pv.take(i as int).map_values(f).push(
            f(pv[i as int]),
        ));
        i += 1;
    }
    assert(pv.take(ps@.len() as int) == pv);
    out
}

/// Translating keeps one output per env.
proof fn lemma_envs_len(envs: Seq<(Seq<char>, Option<Seq<EntryModel>>)>)
    ensures
        envs_spec(envs) matches Ok(outs) ==> outs.len() == envs.len(),
    decreases envs.len(),
{
    if envs.len() > 0 {
        lemma_envs_len(envs.drop_last());
    }
}

/// A list of strings as YAML strings.
fn str_nodes(v: &Vec<String>) -> (r: Vec<YamlNode>)
    ensures
        r@.map_values(|x: YamlNode| x@) == str_views(views(v@)),
{
    let mut out: Vec<YamlNode> = Vec::new();
    let mut i: usize = 0;
    while i < v.len()
        invariant
            i <= v@.len(),
            out@.map_values(|x: YamlNode| x@) == str_views(views(v@)).take(i as int),
        decreases v.len() - i,
    {
        let ghost b = out@;
        out.push(YamlNode::Str(copy_string(&v[i])));
        assert(out@.map_values(|x: YamlNode| x@) =~= b.map_values(|x: YamlNode| x@).push(
            YamlView::Str(v@[i as int]@),
        ));
        assert(str_views(views(v@)).take(i + 1) =~= str_views(views(v@)).take(i as int).push(
            YamlView::Str(v@[i as int]@),
        ));
        i += 1;
    }
    assert(str_views(views(v@)).take(v@.len() as int) == str_views(views(v@)));
    out
}

/// Key/value string pairs as YAML pairs.
fn str_pair_nodes(v: &Vec<(String, String)>) -> (r: Vec<(YamlNode, YamlNode)>)
    ensures
        pair_views(r@) == str_pairs(kv_views(v@)),
{
    let mut out: Vec<(YamlNode, YamlNode)> = Vec::new();
    let mut i: usize = 0;
    while i < v.len()
        invariant
            i <= v@.len(),
            pair_views(out@) == str_pairs(kv_views(v@)).take(i as int),
        decreases v.len() - i,
    {
        let ghost b = out@;
        out.push((YamlNode::Str(copy_string(&v[i].0)), YamlNode::Str(copy_string(&v[i].1))));
        assert(pair_views(out@) =~= pair_views(b).push(
            (YamlView::Str(v@[i as int].0@), YamlView::Str(v@[i as int].1@)),
        ));
        assert(str_pairs(kv_views(v@)).take(i + 1) =~= str_pairs(kv_views(v@)).take(i as int).push(
            (YamlView::Str(v@[i as int].0@), YamlView::Str(v@[i as int].1@)),
        ));
        i += 1;
    }
    assert(str_pairs(kv_views(v@)).take(v@.len() as int) == str_pairs(kv_views(v@)));
    out
}

/// An output as YAML.
fn output_node(o: &MigratedOutput) -> (r: YamlNode)
    ensures
        r@ == output_yaml(views(o.selectors@), kv_views(o.aliases@)),
{
    let sel = str_nodes(&o.selectors);
    let al = str_pair_nodes(&o.aliases);
    proof {
        lemma_sequence_view(sel);
        lemma_mapping_view(al);
        reveal_strlit("selectors");
        reveal_strlit("aliases");
    }
    let pairs = vec![
        (YamlNode::Str(String::from_str("selectors")), YamlNode::Sequence(sel)),
        (YamlNode::Str(String::from_str("aliases")), YamlNode::Mapping(al)),
    ];
    proof {
        lemma_mapping_view(pairs);
    }
    assert(pair_views(pairs@) =~= output_yaml(views(o.selectors@), kv_views(o.aliases@))->Mapping_0);
    YamlNode::Mapping(pairs)
}

/// Whether a key is the string `k`.
fn is_str_key(n: &YamlNode, k: &str) -> (r: bool)
    ensures
        r == (n@ == YamlView::Str(k@)),
{
    match n {
        YamlNode::Str(s) => crate::text::str_eq(s.as_str(), k),
        _ => false,
    }
}

/// Where the string key `k` sits in the pairs.
fn find_key(ps: &Vec<(YamlNode, YamlNode)>, k: &str) -> (r: usize)
    ensures
        r == key_index(pair_views(ps@), YamlView::Str(k@)),
        r <= ps@.len(),
{
    let ghost pv = pair_views(ps@);
    let ghost kv = YamlView::Str(k@);
    let mut i: usize = 0;
    assert(pv.skip(0) == pv);
    while i < ps.len()
        invariant
            i <= ps@.len(),
            pv == pair_views(ps@),
            kv == YamlView::Str(k@),
            key_index(pv, kv) == i + key_index(pv.skip(i as int), kv),
        decreases ps.len() - i,
    {
        assert(pv.skip(i as int)[0] == pv[i as int]);
        if is_str_key(&ps[i].0, k) {
            return i;
        }
        assert(pv.skip(i as int).drop_first() == pv.skip(i + 1));
        i += 1;
    }
    assert(pv.skip(i as int).len() == 0);
    i
}

/// The document with the mapping under its tags replaced.
fn retag_node(v: &YamlNode, m: Vec<(YamlNode, YamlNode)>) -> (r: YamlNode)
    ensures
        r@ == retag(v@, pair_views(m@)),
    decreases v,
{
    match v {
        YamlNode::Tagged(t, x) => YamlNode::Tagged(copy_string(t), Box::new(retag_node(x, m))),
        _ => {
            proof {
                lemma_mapping_view(m);
            }
            YamlNode::Mapping(m)
        },
    }
}

pub open spec fn not_mapping_msg(path: Seq<char>) -> Seq<char> {
    path + " must be a YAML mapping"@
}

/// Migrates a project config document (read from the file at `path`):
/// `None` when it has no `envs` key, else the number of outputs written and
/// the new document.
pub fn migrate_config_value(path: &str, root: &YamlNode) -> (r: Result<
    Option<(usize, YamlNode)>,
    HimitsuError,
>)
    ensures
        match migrated_config(root@) {
            ConfigMigrationSpec::NotMapping => r matches Err(e) && e is InvalidConfig && e.detail()
                == not_mapping_msg(path@),
            ConfigMigrationSpec::NoEnvs => r matches Ok(None),
            ConfigMigrationSpec::Failed(m) => r matches Err(e) && e is InvalidConfig && e.detail()
                == m,
            ConfigMigrationSpec::Rewritten(n, v) => r matches Ok(Some(c)) && c.0 == n && c.1@ == v,
        },
{
    let ps = match untag_node(root) {
        YamlNode::Mapping(ps) => ps,
        _ => {
            let mut m = String::from_str(path);
            push_str(&mut m, " must be a YAML mapping");
            return Err(HimitsuError::InvalidConfig(m));
        },
    };
    proof {
        lemma_mapping_view(*ps);
        reveal_strlit("envs");
        reveal_strlit("outputs");
    }
    let i = find_key(ps, "envs");
    if i == ps.len() {
        return Ok(None);
    }
    let env_pairs = match untag_node(&ps[i].1) {
        YamlNode::Mapping(q) => q,
        _ => {
            return Err(HimitsuError::InvalidConfig(String::from_str("legacy `envs` block must be a mapping")));
        },
    };
    proof {
        lemma_mapping_view(*env_pairs);
    }
    let envs = envs_of_pairs(env_pairs);
    let outs = translate_envs_to_outputs(Some(envs))?;
    proof {
        lemma_envs_len(env_models(envs@));
    }
    let ghost keys = pair_views(env_pairs@).map_values(|p: (YamlView, YamlView)| p.0);
    let ghost ov = output_views(outs@);
    let mut out: Vec<(YamlNode, YamlNode)> = Vec::new();
    let mut j: usize = 0;
    while j < outs.len()
        invariant
            j <= outs@.len(),
            outs@.len() == env_pairs@.len(),
            ov == output_views(outs@),
            keys == pair_views(env_pairs@).map_values(|p: (YamlView, YamlView)| p.0),
            pair_views(out@) == Seq::new(
                j as nat,
                |x: int| (keys[x], output_yaml(ov[x].1, ov[x].2)),
            ),
        decreases outs.len() - j,
    {
        let k = copy_node(&env_pairs[j].0);
        let o = output_node(&outs[j]);
        let ghost b = out@;
        assert(keys[j as int] == pair_views(env_pairs@)[j as int].0);
        assert(k@ == keys[j as int]);
        assert(ov[j as int] == output_view(outs@[j as int]));
        out.push((k, o));
        assert(pair_views(out@) =~= pair_views(b).push((k@, o@)));
        assert(pair_views(out@) =~= Seq::new(
            (j + 1) as nat,
            |x: int| (keys[x], output_yaml(ov[x].1, ov[x].2)),
        ));
        j += 1;
    }
    let n = outs.len();
    let outputs_v = YamlNode::Mapping(out);
    proof {
        lemma_mapping_view(out);
    }
    assert(outputs_v@ == outputs_yaml(keys, ov));
    let mut rest: Vec<(YamlNode, YamlNode)> = Vec::new();
    let mut q: usize = 0;
    while q < ps.len()
        invariant
            q <= ps@.len(),
            pair_views(rest@) == pair_views(ps@).take(q as int),
        decreases ps.len() - q,
    {
        let k = copy_node(&ps[q].0);
        let v = copy_node(&ps[q].1);
        let ghost b = rest@;
        rest.push((k, v));
        assert(pair_views(rest@) =~= pair_views(b).push((k@, v@)));
        assert(pair_views(ps@).take(q + 1) =~= pair_views(ps@).take(q as int).push(
            pair_views(ps@)[q as int],
        ));
        q += 1;
    }
    assert(pair_views(ps@).take(ps@.len() as int) == pair_views(ps@));
    let ghost pv = pair_views(ps@);
    let _ = rest.swap_remove(i);
    assert(pair_views(rest@) =~= pv.update(i as int, pv.last()).drop_last());
    let ghost rv = pair_views(rest@);
    let oi = find_key(&rest, "outputs");
    if oi < rest.len() {
        let kk = copy_node(&rest[oi].0);
        rest.set(oi, (kk, outputs_v));
    } else {
        rest.push((YamlNode::Str(String::from_str("outputs")), outputs_v));
    }
    assert(pair_views(rest@) =~= map_put(rv, YamlView::Str("outputs"@), outputs_yaml(keys, ov)));
    Ok(Some((n, retag_node(root, rest))))
}

/// The rewritten project config: how many outputs it now has, and its text.
#[derive(Debug)]
pub struct ConfigMigration {
    pub outputs: usize,
    pub text: String,
}

/// Migrates the text of a project config (read from the file at `path`):
/// a blank text is an empty mapping; otherwise it is read as YAML, a text
/// serde_yaml refuses being a configuration error with its message. `None`
/// when there is no `envs` key; else the number of outputs and the new text,
/// which serde_yaml writes (its refusal being a generation error).
pub fn migrate_project_config(path: &str, contents: &str) -> (r: Result<
    Option<ConfigMigration>,
    HimitsuError,
>)
    ensures
        trim(contents@).len() > 0 && yaml_parsed(contents@) is None ==> (r matches Err(e)
            && e is InvalidConfig),
        trim(contents@).len() == 0 || yaml_parsed(contents@) is Some ==> match migrated_config(
            if trim(contents@).len() == 0 {
                YamlView::Mapping(Seq::empty())
            } else {
                yaml_parsed(contents@)->Some_0
            },
        ) {
            ConfigMigrationSpec::NotMapping => r matches Err(e) && e is InvalidConfig && e.detail()
                == not_mapping_msg(path@),
            ConfigMigrationSpec::NoEnvs => r matches Ok(None),
            ConfigMigrationSpec::Failed(m) => r matches Err(e) && e is InvalidConfig && e.detail()
                == m,
            ConfigMigrationSpec::Rewritten(n, v) => !(r matches Ok(None)) && (r matches Ok(Some(c))
                ==> c.outputs == n && c.text@ == yaml_text(v)) && (r matches Err(e)
                ==> e is GenerateError),
        },
{
    let blank = trim_chars(chars_of(contents).as_slice()).len() == 0;
    let root = if blank {
        let empty: Vec<(YamlNode, YamlNode)> = Vec::new();
        proof {
            lemma_mapping_view(empty);
        }
        assert(pair_views(empty@) =~= Seq::<(YamlView, YamlView)>::empty());
        YamlNode::Mapping(empty)
    } else {
        match parse_yaml(contents) {
            Ok(v) => v,
            Err(m) => {
                return Err(HimitsuError::InvalidConfig(m));
            },
        }
    };
    match migrate_config_value(path, &root)? {
        None => Ok(None),
        Some((n, v)) => {
            let text = to_yaml(&v)?;
            Ok(Some(ConfigMigration { outputs: n, text }))
        },
    }
}

// ── Secrets ──────────────────────────────────────────────────────────────

/// What the migration does with a secret envelope.
#[derive(Debug, Clone, PartialEq, Eq)]
pub enum EnvelopeAction {
    /// Nothing to migrate.
    Skip,
    /// The legacy environment is no valid tag: warn and skip.
    Warn(String),
    /// Fold the environment into the secret's tags.
    Migrate,
}

/// The warning for a legacy environment that is no valid tag.
pub open spec fn bad_environment_msg(path: Seq<char>, env: Seq<char>) -> Seq<char> {
    "warning: skipping "@ + path + ": legacy environment "@ + debug_quoted(env) + " is not a valid tag"@
}

/// What to do with an envelope at `path` carrying a legacy `environment`:
/// skip it when there is no environment or no ciphertext; warn and skip
/// when the environment is no valid tag; else migrate it.
pub fn envelope_action(path: &str, environment: &str, has_ciphertext: bool) -> (r: EnvelopeAction)
    ensures
        environment@.len() == 0 || !has_ciphertext ==> r == EnvelopeAction::Skip,
        environment@.len() > 0 && has_ciphertext && !valid_tag(environment@) ==> (r matches EnvelopeAction::Warn(m)
            && m@ == bad_environment_msg(path@, environment@)),
        environment@.len() > 0 && has_ciphertext && valid_tag(environment@) ==> r == EnvelopeAction::Migrate,
{
    if chars_of(environment).len() == 0 || !has_ciphertext {
        return EnvelopeAction::Skip;
    }
    match validate_tag(environment) {
        Ok(()) => EnvelopeAction::Migrate,
        Err(_) => {
            let mut m = String::from_str("warning: skipping ");
            push_str(&mut m, path);
            push_str(&mut m, ": legacy environment ");
            push_str(&mut m, quoted(environment).as_str());
            push_str(&mut m, " is not a valid tag");
            EnvelopeAction::Warn(m)
        },
    }
}

/// The summary printed after a migration.
pub fn summary_lines(secrets: usize, outputs: usize, cache_deleted: bool, dry_run: bool) -> (r: Vec<String>)
    ensures
        views(r@) == seq![
            "himitsu migrate envs summary"@,
            "  secrets migrated: "@ + crate::text::decimal(secrets as nat),
            "  output blocks rewritten: "@ + crate::text::decimal(outputs as nat),
            "  cache deleted: "@ + (if cache_deleted { "true"@ } else { "false"@ }),
            "  dry-run: "@ + (if dry_run { "true"@ } else { "false"@ }),
        ],
{
    let mut v: Vec<String> = Vec::new();
    v.push(String::from_str("himitsu migrate envs summary"));
    let mut a = String::from_str("  secrets migrated: ");
    push_str(&mut a, crate::text::string_of(&crate::text::decimal_chars(secrets)).as_str());
    v.push(a);
    let mut b = String::from_str("  output blocks rewritten: ");
    push_str(&mut b, crate::text::string_of(&crate::text::decimal_chars(outputs)).as_str());
    v.push(b);
    let mut c = String::from_str("  cache deleted: ");
    push_str(&mut c, if cache_deleted { "true" } else { "false" });
    v.push(c);
    let mut d = String::from_str("  dry-run: ");
    push_str(&mut d, if dry_run { "true" } else { "false" });
    v.push(d);
    assert(views(v@) =~= seq![
        "himitsu migrate envs summary"@,
        "  secrets migrated: "@ + crate::text::decimal(secrets as nat),
        "  output blocks rewritten: "@ + crate::text::decimal(outputs as nat),
        "  cache deleted: "@ + (if cache_deleted { "true"@ } else { "false"@ }),
        "  dry-run: "@ + (if dry_run { "true"@ } else { "false"@ }),
    ]);
    v
}

} // verus!
