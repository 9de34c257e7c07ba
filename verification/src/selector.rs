//! The tag-selector grammar used by `exec`, `generate` and output blocks.
//!
//! ```text
//! ref      = group ("," group)*
//! group    = token ("+" token)*
//! token    = glob | tag | path
//! glob     = path-with-wildcards  (contains '*' or '?')
//! tag      = "tag:" IDENT
//! path     = literal-path          (no wildcards, no "tag:" prefix)
//! ```
//!
//! `+` within a group is AND, `,` between groups is OR.
use vstd::prelude::*;

use crate::error::HimitsuError;
use crate::glob::{glob_match, glob_spec};
use crate::tags::{valid_tag, validate_tag_chars};
use crate::text::{
    chars_of, contains_char, has_char, has_prefix, push_str, slice_of, split, split_chars,
    starts_with, str_eq, string_of, vec_views,
};

verus! {

/// A single selector token: glob pattern, tag filter, or concrete path.
#[derive(Debug, Clone, PartialEq)]
pub enum Token {
    /// A glob pattern (contains `*` or `?`), matched against secret paths.
    Glob(String),
    /// A `tag:NAME` selector, matched against a secret's tags.
    Tag(String),
    /// A concrete secret path.
    Path(String),
}

/// A group of AND-combined tokens.
#[derive(Debug, Clone, PartialEq)]
pub struct Group(pub Vec<Token>);

/// A parsed selector: one or more OR-combined groups.
#[derive(Debug, Clone, PartialEq)]
pub struct Selector(pub Vec<Group>);

/// What a selector is matched against: a secret's path and tags.
pub struct SecretMatch<'a> {
    pub path: &'a str,
    pub tags: &'a [String],
}

/// The mathematical content of a token.
pub enum TokenView {
    Glob(Seq<char>),
    Tag(Seq<char>),
    Path(Seq<char>),
}

impl Token {
    pub open spec fn view(&self) -> TokenView {
        match self {
            Token::Glob(s) => TokenView::Glob(s@),
            Token::Tag(s) => TokenView::Tag(s@),
            Token::Path(s) => TokenView::Path(s@),
        }
    }
}

impl Group {
    pub open spec fn view(&self) -> Seq<TokenView> {
        self.0@.map_values(|t: Token| t.view())
    }
}

impl Selector {
    pub open spec fn view(&self) -> Seq<Seq<TokenView>> {
        self.0@.map_values(|g: Group| g.view())
    }
}

// ── Grammar ──────────────────────────────────────────────────────────────

/// The token a piece of selector text denotes, if it is well-formed.
pub open spec fn token_of(s: Seq<char>) -> Option<TokenView> {
    if s.len() == 0 {
        None
    } else if has_prefix(s, "tag:"@) {
        if valid_tag(s.skip(4)) {
            Some(TokenView::Tag(s.skip(4)))
        } else {
            None
        }
    } else if has_char(s, '*') || has_char(s, '?') {
        Some(TokenView::Glob(s))
    } else {
        Some(TokenView::Path(s))
    }
}

/// The tokens of a list of pieces, if every piece is well-formed.
pub open spec fn tokens_of(parts: Seq<Seq<char>>) -> Option<Seq<TokenView>>
    decreases parts.len(),
{
    if parts.len() == 0 {
        Some(Seq::empty())
    } else {
        match (tokens_of(parts.drop_last()), token_of(parts.last())) {
            (Some(ts), Some(t)) => Some(ts.push(t)),
            _ => None,
        }
    }
}

/// The group a piece of selector text denotes, if it is well-formed.
pub open spec fn group_of(s: Seq<char>) -> Option<Seq<TokenView>> {
    if s.len() == 0 {
        None
    } else {
        tokens_of(split(s, '+'))
    }
}

/// The groups of a list of pieces, if every piece is well-formed.
pub open spec fn groups_of(parts: Seq<Seq<char>>) -> Option<Seq<Seq<TokenView>>>
    decreases parts.len(),
{
    if parts.len() == 0 {
        Some(Seq::empty())
    } else {
        match (groups_of(parts.drop_last()), group_of(parts.last())) {
            (Some(gs), Some(g)) => Some(gs.push(g)),
            _ => None,
        }
    }
}

/// The selector a text denotes, if it is well-formed.
pub open spec fn selector_of(s: Seq<char>) -> Option<Seq<Seq<TokenView>>> {
    if s.len() == 0 {
        None
    } else {
        groups_of(split(s, ','))
    }
}

// ── Matching ─────────────────────────────────────────────────────────────

/// Whether a tag list holds `name`.
pub open spec fn has_tag(tags: Seq<Seq<char>>, name: Seq<char>) -> bool {
    exists|i: int| 0 <= i < tags.len() && tags[i] == name
}

pub open spec fn token_matches(t: TokenView, path: Seq<char>, tags: Seq<Seq<char>>) -> bool {
    match t {
        TokenView::Glob(p) => glob_spec(p, path),
        TokenView::Tag(n) => has_tag(tags, n),
        TokenView::Path(l) => path == l,
    }
}

pub open spec fn group_matches(g: Seq<TokenView>, path: Seq<char>, tags: Seq<Seq<char>>) -> bool {
    forall|i: int| 0 <= i < g.len() ==> token_matches(#[trigger] g[i], path, tags)
}

pub open spec fn selector_matches(
    s: Seq<Seq<TokenView>>,
    path: Seq<char>,
    tags: Seq<Seq<char>>,
) -> bool {
    exists|i: int| 0 <= i < s.len() && group_matches(#[trigger] s[i], path, tags)
}

pub open spec fn tag_views(tags: Seq<String>) -> Seq<Seq<char>> {
    tags.map_values(|t: String| t@)
}

/// Whether `tags` holds a tag equal to `name`.
pub fn tags_contain(tags: &[String], name: &str) -> (r: bool)
    ensures
        r == has_tag(tag_views(tags@), name@),
{
    let mut i: usize = 0;
    while i < tags.len()
        invariant
            i <= tags.len(),
            forall|j: int| 0 <= j < i ==> tags@[j]@ != name@,
        decreases tags.len() - i,
    {
        if str_eq(tags[i].as_str(), name) {
            assert(tag_views(tags@)[i as int] == name@);
            return true;
        }
        i += 1;
    }
    assert forall|j: int| 0 <= j < tag_views(tags@).len() implies tag_views(tags@)[j] != name@ by {
        assert(tag_views(tags@)[j] == tags@[j]@);
    }
    false
}

impl Token {
    /// Whether this token matches the secret.
    pub fn matches(&self, secret: &SecretMatch<'_>) -> (r: bool)
        ensures
            r == token_matches(self.view(), secret.path@, tag_views(secret.tags@)),
    {
        match self {
            Token::Glob(pattern) => glob_match(pattern.as_str(), secret.path),
            Token::Tag(name) => tags_contain(secret.tags, name.as_str()),
            Token::Path(literal) => str_eq(secret.path, literal.as_str()),
        }
    }
}

impl Group {
    /// Whether every token of the group matches the secret.
    pub fn matches(&self, secret: &SecretMatch<'_>) -> (r: bool)
        ensures
            r == group_matches(self.view(), secret.path@, tag_views(secret.tags@)),
    {
        let mut i: usize = 0;
        while i < self.0.len()
            invariant
                i <= self.0.len(),
                forall|j: int|
                    0 <= j < i ==> token_matches(
                        #[trigger] self.view()[j],
                        secret.path@,
                        tag_views(secret.tags@),
                    ),
            decreases self.0.len() - i,
        {
            if !self.0[i].matches(secret) {
                assert(!token_matches(self.view()[i as int], secret.path@, tag_views(secret.tags@)));
                return false;
            }
            i += 1;
        }
        true
    }
}

impl Selector {
    /// Whether any group of the selector matches the secret.
    pub fn matches(&self, secret: &SecretMatch<'_>) -> (r: bool)
        ensures
            r == selector_matches(self.view(), secret.path@, tag_views(secret.tags@)),
    {
        let mut i: usize = 0;
        while i < self.0.len()
            invariant
                i <= self.0.len(),
                forall|j: int|
                    0 <= j < i ==> !group_matches(
                        #[trigger] self.view()[j],
                        secret.path@,
                        tag_views(secret.tags@),
                    ),
            decreases self.0.len() - i,
        {
            if self.0[i].matches(secret) {
                assert(group_matches(self.view()[i as int], secret.path@, tag_views(secret.tags@)));
                return true;
            }
            i += 1;
        }
        false
    }

    /// Parses a selector string according to the grammar.
    pub fn parse(s: &str) -> (r: Result<Selector, HimitsuError>)
        ensures
            r is Ok <==> selector_of(s@) is Some,
            r matches Ok(sel) ==> selector_of(s@) == Some(sel.view()),
            r matches Err(e) ==> e is InvalidSelector,
    {
        let cs = chars_of(s);
        if cs.len() == 0 {
            return Err(HimitsuError::InvalidSelector(String::from_str("empty selector")));
        }
        let pieces = split_chars(&cs, ',');
        let mut groups: Vec<Group> = Vec::new();
        let mut i: usize = 0;
        while i < pieces.len()
            invariant
                i <= pieces.len(),
                cs@ == s@,
                cs.len() > 0,
                vec_views(pieces@) == split(cs@, ','),
                groups_of(vec_views(pieces@).take(i as int)) == Some(
                    groups@.map_values(|g: Group| g.view()),
                ),
            decreases pieces.len() - i,
        {
            let ghost pre = vec_views(pieces@).take(i as int);
            assert(vec_views(pieces@).take(i + 1).drop_last() == pre);
            assert(vec_views(pieces@).take(i + 1).last() == pieces@[i as int]@);
            match parse_group(&pieces[i]) {
                Ok(g) => {
                    groups.push(g);
                    assert(groups@.map_values(|g: Group| g.view()) == groups@.drop_last().map_values(
                        |g: Group| g.view(),
                    ).push(g.view()));
                },
                Err(e) => {
                    proof {
                        assert(group_of(pieces@[i as int]@) is None);
                        assert(groups_of(vec_views(pieces@).take(i + 1)) is None);
                        lemma_groups_of_prefix_none(vec_views(pieces@), i as int + 1);
                        assert(groups_of(split(cs@, ',')) is None);
                        assert(selector_of(s@) is None);
                    }
                    return Err(e);
                },
            }
            i += 1;
        }
        assert(vec_views(pieces@).take(pieces@.len() as int) == vec_views(pieces@));
        Ok(Selector(groups))
    }
}

/// A failed prefix of pieces makes the whole list fail.
proof fn lemma_groups_of_prefix_none(parts: Seq<Seq<char>>, k: int)
    requires
        0 <= k <= parts.len(),
        groups_of(parts.take(k)) is None,
    ensures
        groups_of(parts) is None,
    decreases parts.len() - k,
{
    if k < parts.len() {
        assert(parts.take(k + 1).drop_last() == parts.take(k));
        lemma_groups_of_prefix_none(parts, k + 1);
    } else {
        assert(parts.take(k) == parts);
    }
}

/// A failed prefix of pieces makes the whole list fail.
proof fn lemma_tokens_of_prefix_none(parts: Seq<Seq<char>>, k: int)
    requires
        0 <= k <= parts.len(),
        tokens_of(parts.take(k)) is None,
    ensures
        tokens_of(parts) is None,
    decreases parts.len() - k,
{
    if k < parts.len() {
        assert(parts.take(k + 1).drop_last() == parts.take(k));
        lemma_tokens_of_prefix_none(parts, k + 1);
    } else {
        assert(parts.take(k) == parts);
    }
}

/// Parses one `+`-separated group.
pub fn parse_group(s: &[char]) -> (r: Result<Group, HimitsuError>)
    ensures
        r is Ok <==> group_of(s@) is Some,
        r matches Ok(g) ==> group_of(s@) == Some(g.view()),
        r matches Err(e) ==> e is InvalidSelector,
{
    if s.len() == 0 {
        return Err(HimitsuError::InvalidSelector(String::from_str("empty selector group")));
    }
    let pieces = split_chars(s, '+');
    let mut tokens: Vec<Token> = Vec::new();
    let mut i: usize = 0;
    while i < pieces.len()
        invariant
            i <= pieces.len(),
            s.len() > 0,
            vec_views(pieces@) == split(s@, '+'),
            tokens_of(vec_views(pieces@).take(i as int)) == Some(
                tokens@.map_values(|t: Token| t.view()),
            ),
        decreases pieces.len() - i,
    {
        let ghost pre = vec_views(pieces@).take(i as int);
        assert(vec_views(pieces@).take(i + 1).drop_last() == pre);
        assert(vec_views(pieces@).take(i + 1).last() == pieces@[i as int]@);
        match parse_token(&pieces[i]) {
            Ok(t) => {
                tokens.push(t);
                assert(tokens@.map_values(|t: Token| t.view()) == tokens@.drop_last().map_values(
                    |t: Token| t.view(),
                ).push(t.view()));
            },
            Err(e) => {
                proof {
                    lemma_tokens_of_prefix_none(vec_views(pieces@), i as int + 1);
                }
                assert(vec_views(pieces@).take(pieces@.len() as int) == vec_views(pieces@));
                return Err(e);
            },
        }
        i += 1;
    }
    assert(vec_views(pieces@).take(pieces@.len() as int) == vec_views(pieces@));
    Ok(Group(tokens))
}

/// Parses one token.
pub fn parse_token(s: &[char]) -> (r: Result<Token, HimitsuError>)
    ensures
        r is Ok <==> token_of(s@) is Some,
        r matches Ok(t) ==> token_of(s@) == Some(t.view()),
        r matches Err(e) ==> e is InvalidSelector,
{
    if s.len() == 0 {
        return Err(HimitsuError::InvalidSelector(String::from_str("empty selector token")));
    }
    let prefix = ['t', 'a', 'g', ':'];
    let is_tag = starts_with(s, &prefix);
    proof {
        reveal_strlit("tag:");
        assert(prefix@ == "tag:"@);
    }
    if is_tag {
        let name = slice_of(s, 4, s.len());
        assert(name@ == s@.skip(4));
        if name.len() == 0 {
            return Err(HimitsuError::InvalidSelector(String::from_str("tag name is empty")));
        }
        match validate_tag_chars(&name) {
            Ok(()) => {},
            Err(reason) => {
                return Err(HimitsuError::InvalidSelector(reason));
            },
        }
        return Ok(Token::Tag(string_of(&name)));
    }
    if contains_char(s, '*') || contains_char(s, '?') {
        return Ok(Token::Glob(string_of(s)));
    }
    Ok(Token::Path(string_of(s)))
}

// ── Laws of matching ─────────────────────────────────────────────────────

/// A `+` group is a conjunction: it matches a secret exactly when every one
/// of its tokens matches it. The empty group matches everything, a group
/// whose first token fails matches nothing, and adding a token keeps only
/// the secrets that token also matches.
pub proof fn lemma_group_is_conjunction(
    g: Seq<TokenView>,
    t: TokenView,
    path: Seq<char>,
    tags: Seq<Seq<char>>,
)
    ensures
        group_matches(g, path, tags) <==> (forall|i: int|
            0 <= i < g.len() ==> #[trigger] token_matches(g[i], path, tags)),
        group_matches(Seq::<TokenView>::empty(), path, tags),
        g.len() > 0 && !token_matches(g[0], path, tags) ==> !group_matches(g, path, tags),
        group_matches(g.push(t), path, tags) <==> (group_matches(g, path, tags) && token_matches(
            t,
            path,
            tags,
        )),
{
    let h = g.push(t);
    if group_matches(h, path, tags) {
        assert(h[g.len() as int] == t);
        assert forall|i: int| 0 <= i < g.len() implies #[trigger] token_matches(g[i], path, tags) by {
            assert(h[i] == g[i]);
        }
    }
    if group_matches(g, path, tags) && token_matches(t, path, tags) {
        assert forall|i: int| 0 <= i < h.len() implies #[trigger] token_matches(h[i], path, tags) by {
            if i < g.len() {
                assert(h[i] == g[i]);
            } else {
                assert(h[i] == t);
            }
        }
    }
}

/// A `,` selector is a disjunction of its groups: it matches a secret
/// exactly when one of its groups does (each group matching when all of its
/// tokens do). The empty selector matches nothing, and adding a group adds
/// exactly the secrets that group matches.
pub proof fn lemma_selector_is_disjunction(
    s: Seq<Seq<TokenView>>,
    g: Seq<TokenView>,
    path: Seq<char>,
    tags: Seq<Seq<char>>,
)
    ensures
        selector_matches(s, path, tags) <==> (exists|i: int|
            0 <= i < s.len() && #[trigger] group_matches(s[i], path, tags)),
        !selector_matches(Seq::<Seq<TokenView>>::empty(), path, tags),
        selector_matches(s.push(g), path, tags) <==> (selector_matches(s, path, tags)
            || group_matches(g, path, tags)),
{
    let h = s.push(g);
    if selector_matches(h, path, tags) {
        let i = choose|i: int| 0 <= i < h.len() && group_matches(#[trigger] h[i], path, tags);
        if i < s.len() {
            assert(h[i] == s[i]);
        } else {
            assert(h[i] == g);
        }
    }
    if selector_matches(s, path, tags) {
        let i = choose|i: int| 0 <= i < s.len() && group_matches(#[trigger] s[i], path, tags);
        assert(h[i] == s[i]);
    }
    if group_matches(g, path, tags) {
        assert(h[s.len() as int] == g);
    }
}

/// What each token asks of a secret: a glob token that its path matches the
/// glob, a `tag:` token that one of its tags is that name, a path token
/// that its path is that path.
pub proof fn lemma_token_meaning(t: TokenView, path: Seq<char>, tags: Seq<Seq<char>>)
    ensures
        t matches TokenView::Glob(p) ==> (token_matches(t, path, tags) <==> glob_spec(p, path)),
        t matches TokenView::Tag(n) ==> (token_matches(t, path, tags) <==> exists|i: int|
            0 <= i < tags.len() && #[trigger] tags[i] == n),
        t matches TokenView::Path(l) ==> (token_matches(t, path, tags) <==> path == l),
{
}

} // verus!
