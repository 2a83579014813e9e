//! The canonical listing grammar, read back: parsers over byte sequences.
//!
//! The grammar is exactly the one `crate::json` writes: no whitespace, fixed
//! field names in a fixed order, strings with `\"` and `\\` escapes. A body
//! that deviates from it in any way fails to parse. Control bytes inside
//! strings are rejected rather than unescaped, so parsed text is always free
//! of them.

use vstd::prelude::*;

use crate::json::{
    lit_download, lit_id, lit_name, lit_releases, lit_version, BACKSLASH, COMMA, LBRACE, LBRACK,
    QUOTE, RBRACE, RBRACK,
};
use crate::models::{AppReleaseView, AppView, CategoryView};

verus! {

/// `p` is a prefix of `s`.
pub open spec fn starts_with(s: Seq<u8>, p: Seq<u8>) -> bool {
    p.len() <= s.len() && forall|k: int| 0 <= k < p.len() ==> s[k] == p[k]
}

/// The bytes of `{"id":`.
pub open spec fn obj_id_prefix() -> Seq<u8> {
    seq![LBRACE] + lit_id()
}

/// The bytes of `,"name":`.
pub open spec fn name_sep() -> Seq<u8> {
    seq![COMMA] + lit_name()
}

/// The bytes of `{"version":`.
pub open spec fn obj_version_prefix() -> Seq<u8> {
    seq![LBRACE] + lit_version()
}

/// The bytes of `,"download":`.
pub open spec fn download_sep() -> Seq<u8> {
    seq![COMMA] + lit_download()
}

/// The bytes of `,"releases":`.
pub open spec fn releases_sep() -> Seq<u8> {
    seq![COMMA] + lit_releases()
}

/// Reads the inside of a JSON string up to and over its closing quote.
/// Returns the unescaped content and what follows the closing quote.
pub open spec fn parse_text_rest(s: Seq<u8>) -> Option<(Seq<u8>, Seq<u8>)>
    decreases s.len(),
{
    if s.len() == 0 {
        None
    } else if s[0] == QUOTE {
        Some((Seq::empty(), s.drop_first()))
    } else if s[0] == BACKSLASH {
        if s.len() >= 2 && (s[1] == QUOTE || s[1] == BACKSLASH) {
            match parse_text_rest(s.skip(2)) {
                Some(p) => Some((seq![s[1]] + p.0, p.1)),
                None => None,
            }
        } else {
            None
        }
    } else if s[0] < 0x20 {
        None
    } else {
        match parse_text_rest(s.drop_first()) {
            Some(p) => Some((seq![s[0]] + p.0, p.1)),
            None => None,
        }
    }
}

/// Reads a whole JSON string, opening quote included.
pub open spec fn parse_json_text(s: Seq<u8>) -> Option<(Seq<u8>, Seq<u8>)> {
    if s.len() > 0 && s[0] == QUOTE {
        parse_text_rest(s.drop_first())
    } else {
        None
    }
}

/// Reads one category object `{"id":<text>,"name":<text>}`.
pub open spec fn parse_category_v(s: Seq<u8>) -> Option<(CategoryView, Seq<u8>)> {
    if starts_with(s, obj_id_prefix()) {
        match parse_json_text(s.skip(obj_id_prefix().len() as int)) {
            Some(p1) => if starts_with(p1.1, name_sep()) {
                match parse_json_text(p1.1.skip(name_sep().len() as int)) {
                    Some(p2) => if p2.1.len() > 0 && p2.1[0] == RBRACE {
                        Some((CategoryView { id: p1.0, name: p2.0 }, p2.1.drop_first()))
                    } else {
                        None
                    },
                    None => None,
                }
            } else {
                None
            },
            None => None,
        }
    } else {
        None
    }
}

/// Reads one release object `{"version":<text>,"download":<text>}`.
pub open spec fn parse_release_v(s: Seq<u8>) -> Option<(AppReleaseView, Seq<u8>)> {
    if starts_with(s, obj_version_prefix()) {
        match parse_json_text(s.skip(obj_version_prefix().len() as int)) {
            Some(p1) => if starts_with(p1.1, download_sep()) {
                match parse_json_text(p1.1.skip(download_sep().len() as int)) {
                    Some(p2) => if p2.1.len() > 0 && p2.1[0] == RBRACE {
                        Some((AppReleaseView { version: p1.0, download: p2.0 }, p2.1.drop_first()))
                    } else {
                        None
                    },
                    None => None,
                }
            } else {
                None
            },
            None => None,
        }
    } else {
        None
    }
}

/// After a string's content was read, what follows is shorter than what was
/// handed in: the closing quote at least was consumed.
pub proof fn lemma_parse_text_shrinks(s: Seq<u8>)
    ensures
        parse_text_rest(s) matches Some(p) ==> p.1.len() < s.len(),
    decreases s.len(),
{
    if s.len() == 0 {
    } else if s[0] == QUOTE {
    } else if s[0] == BACKSLASH {
        if s.len() >= 2 && (s[1] == QUOTE || s[1] == BACKSLASH) {
            lemma_parse_text_shrinks(s.skip(2));
        }
    } else {
        lemma_parse_text_shrinks(s.drop_first());
    }
}

/// A parsed JSON string consumes at least its two quotes.
pub proof fn lemma_parse_json_text_shrinks(s: Seq<u8>)
    ensures
        parse_json_text(s) matches Some(p) ==> p.1.len() + 2 <= s.len(),
{
    if s.len() > 0 && s[0] == QUOTE {
        lemma_parse_text_shrinks(s.drop_first());
    }
}

/// A parsed category consumes at least one byte.
pub proof fn lemma_parse_category_shrinks(s: Seq<u8>)
    ensures
        parse_category_v(s) matches Some(p) ==> p.1.len() < s.len(),
{
    if starts_with(s, obj_id_prefix()) {
        lemma_parse_json_text_shrinks(s.skip(obj_id_prefix().len() as int));
        match parse_json_text(s.skip(obj_id_prefix().len() as int)) {
            Some(p1) => lemma_parse_json_text_shrinks(p1.1.skip(name_sep().len() as int)),
            None => {},
        }
    }
}

/// A parsed release consumes at least one byte.
pub proof fn lemma_parse_release_shrinks(s: Seq<u8>)
    ensures
        parse_release_v(s) matches Some(p) ==> p.1.len() < s.len(),
{
    if starts_with(s, obj_version_prefix()) {
        lemma_parse_json_text_shrinks(s.skip(obj_version_prefix().len() as int));
        match parse_json_text(s.skip(obj_version_prefix().len() as int)) {
            Some(p1) => lemma_parse_json_text_shrinks(p1.1.skip(download_sep().len() as int)),
            None => {},
        }
    }
}

/// Reads the categories after the first: `,<cat>` repeated, then `]`.
/// Returns them and what follows the bracket.
pub open spec fn parse_cats_rest(s: Seq<u8>) -> Option<(Seq<CategoryView>, Seq<u8>)>
    decreases s.len(),
    via parse_cats_rest_dec
{
    if s.len() == 0 {
        None
    } else if s[0] == RBRACK {
        Some((Seq::empty(), s.drop_first()))
    } else if s[0] == COMMA {
        match parse_category_v(s.drop_first()) {
            Some(p) => match parse_cats_rest(p.1) {
                Some(q) => Some((seq![p.0] + q.0, q.1)),
                None => None,
            },
            None => None,
        }
    } else {
        None
    }
}

#[via_fn]
proof fn parse_cats_rest_dec(s: Seq<u8>) {
    if s.len() > 0 && s[0] != RBRACK && s[0] == COMMA {
        lemma_parse_category_shrinks(s.drop_first());
    }
}

/// Reads the releases after the first: `,<rel>` repeated, then `]`.
pub open spec fn parse_rels_rest(s: Seq<u8>) -> Option<(Seq<AppReleaseView>, Seq<u8>)>
    decreases s.len(),
    via parse_rels_rest_dec
{
    if s.len() == 0 {
        None
    } else if s[0] == RBRACK {
        Some((Seq::empty(), s.drop_first()))
    } else if s[0] == COMMA {
        match parse_release_v(s.drop_first()) {
            Some(p) => match parse_rels_rest(p.1) {
                Some(q) => Some((seq![p.0] + q.0, q.1)),
                None => None,
            },
            None => None,
        }
    } else {
        None
    }
}

#[via_fn]
proof fn parse_rels_rest_dec(s: Seq<u8>) {
    if s.len() > 0 && s[0] != RBRACK && s[0] == COMMA {
        lemma_parse_release_shrinks(s.drop_first());
    }
}

/// Reads a whole release array `[...]` and returns what follows it.
pub open spec fn parse_rel_array(s: Seq<u8>) -> Option<(Seq<AppReleaseView>, Seq<u8>)> {
    if s.len() == 0 || s[0] != LBRACK {
        None
    } else {
        let t = s.drop_first();
        if t.len() > 0 && t[0] == RBRACK {
            Some((Seq::empty(), t.drop_first()))
        } else {
            match parse_release_v(t) {
                Some(p) => match parse_rels_rest(p.1) {
                    Some(q) => Some((seq![p.0] + q.0, q.1)),
                    None => None,
                },
                None => None,
            }
        }
    }
}

/// Reads one app object `{"id":<text>,"name":<text>,"releases":[...]}`.
pub open spec fn parse_app_v(s: Seq<u8>) -> Option<(AppView, Seq<u8>)> {
    if starts_with(s, obj_id_prefix()) {
        match parse_json_text(s.skip(obj_id_prefix().len() as int)) {
            Some(p1) => if starts_with(p1.1, name_sep()) {
                match parse_json_text(p1.1.skip(name_sep().len() as int)) {
                    Some(p2) => if starts_with(p2.1, releases_sep()) {
                        match parse_rel_array(p2.1.skip(releases_sep().len() as int)) {
                            Some(p3) => if p3.1.len() > 0 && p3.1[0] == RBRACE {
                                Some(
                                    (
                                        AppView { id: p1.0, name: p2.0, releases: p3.0 },
                                        p3.1.drop_first(),
                                    ),
                                )
                            } else {
                                None
                            },
                            None => None,
                        }
                    } else {
                        None
                    },
                    None => None,
                }
            } else {
                None
            },
            None => None,
        }
    } else {
        None
    }
}

/// A parsed release array consumes at least one byte.
pub proof fn lemma_parse_rels_rest_shrinks(s: Seq<u8>)
    ensures
        parse_rels_rest(s) matches Some(p) ==> p.1.len() < s.len(),
    decreases s.len(),
{
    if s.len() > 0 && s[0] != RBRACK && s[0] == COMMA {
        lemma_parse_release_shrinks(s.drop_first());
        match parse_release_v(s.drop_first()) {
            Some(p) => lemma_parse_rels_rest_shrinks(p.1),
            None => {},
        }
    }
}

/// A parsed release array consumes at least one byte.
pub proof fn lemma_parse_rel_array_shrinks(s: Seq<u8>)
    ensures
        parse_rel_array(s) matches Some(p) ==> p.1.len() < s.len(),
{
    if s.len() > 0 && s[0] == LBRACK {
        let t = s.drop_first();
        if t.len() > 0 && t[0] == RBRACK {
        } else {
            lemma_parse_release_shrinks(t);
            match parse_release_v(t) {
                Some(p) => lemma_parse_rels_rest_shrinks(p.1),
                None => {},
            }
        }
    }
}

/// A parsed app consumes at least one byte.
pub proof fn lemma_parse_app_shrinks(s: Seq<u8>)
    ensures
        parse_app_v(s) matches Some(p) ==> p.1.len() < s.len(),
{
    if starts_with(s, obj_id_prefix()) {
        lemma_parse_json_text_shrinks(s.skip(obj_id_prefix().len() as int));
        match parse_json_text(s.skip(obj_id_prefix().len() as int)) {
            Some(p1) => {
                lemma_parse_json_text_shrinks(p1.1.skip(name_sep().len() as int));
                match parse_json_text(p1.1.skip(name_sep().len() as int)) {
                    Some(p2) => lemma_parse_rel_array_shrinks(
                        p2.1.skip(releases_sep().len() as int),
                    ),
                    None => {},
                }
            },
            None => {},
        }
    }
}

/// Reads the apps after the first: `,<app>` repeated, then `]`.
pub open spec fn parse_apps_rest(s: Seq<u8>) -> Option<(Seq<AppView>, Seq<u8>)>
    decreases s.len(),
    via parse_apps_rest_dec
{
    if s.len() == 0 {
        None
    } else if s[0] == RBRACK {
        Some((Seq::empty(), s.drop_first()))
    } else if s[0] == COMMA {
        match parse_app_v(s.drop_first()) {
            Some(p) => match parse_apps_rest(p.1) {
                Some(q) => Some((seq![p.0] + q.0, q.1)),
                None => None,
            },
            None => None,
        }
    } else {
        None
    }
}

#[via_fn]
proof fn parse_apps_rest_dec(s: Seq<u8>) {
    if s.len() > 0 && s[0] != RBRACK && s[0] == COMMA {
        lemma_parse_app_shrinks(s.drop_first());
    }
}

/// A whole category listing body: the entire input must be one array.
pub open spec fn parse_categories_v(s: Seq<u8>) -> Option<Seq<CategoryView>> {
    if s.len() == 0 || s[0] != LBRACK {
        None
    } else {
        let t = s.drop_first();
        if t.len() > 0 && t[0] == RBRACK {
            if t.len() == 1 {
                Some(Seq::empty())
            } else {
                None
            }
        } else {
            match parse_category_v(t) {
                Some(p) => match parse_cats_rest(p.1) {
                    Some(q) => if q.1.len() == 0 {
                        Some(seq![p.0] + q.0)
                    } else {
                        None
                    },
                    None => None,
                },
                None => None,
            }
        }
    }
}

fn obj_id_bytes() -> (r: Vec<u8>)
    ensures
        r@ == obj_id_prefix(),
{
    let mut v: Vec<u8> = Vec::new();
    v.push(LBRACE);
    crate::json::push_lit_id(&mut v);
    assert(v@ =~= obj_id_prefix());
    v
}

fn name_sep_bytes() -> (r: Vec<u8>)
    ensures
        r@ == name_sep(),
{
    let mut v: Vec<u8> = Vec::new();
    v.push(COMMA);
    crate::json::push_lit_name(&mut v);
    assert(v@ =~= name_sep());
    v
}

fn obj_version_bytes() -> (r: Vec<u8>)
    ensures
        r@ == obj_version_prefix(),
{
    let mut v: Vec<u8> = Vec::new();
    v.push(LBRACE);
    crate::json::push_lit_version(&mut v);
    assert(v@ =~= obj_version_prefix());
    v
}

fn download_sep_bytes() -> (r: Vec<u8>)
    ensures
        r@ == download_sep(),
{
    let mut v: Vec<u8> = Vec::new();
    v.push(COMMA);
    crate::json::push_lit_download(&mut v);
    assert(v@ =~= download_sep());
    v
}

fn releases_sep_bytes() -> (r: Vec<u8>)
    ensures
        r@ == releases_sep(),
{
    let mut v: Vec<u8> = Vec::new();
    v.push(COMMA);
    crate::json::push_lit_releases(&mut v);
    assert(v@ =~= releases_sep());
    v
}

/// Whether `p` stands at position `i` of `s`.
fn at_bytes(s: &[u8], i: usize, p: &[u8]) -> (r: bool)
    requires
        i <= s@.len(),
    ensures
        r == starts_with(s@.skip(i as int), p@),
{
    if s.len() < p.len() || i > s.len() - p.len() {
        assert(!starts_with(s@.skip(i as int), p@));
        return false;
    }
    let mut k: usize = 0;
    while k < p.len()
        invariant
            i + p@.len() <= s@.len(),
            s@.len() <= usize::MAX,
            k <= p@.len(),
            forall|t: int| 0 <= t < k ==> s@[i + t] == p@[t],
        decreases p@.len() - k,
    {
        if s[i + k] != p[k] {
            proof {
                assert(s@.skip(i as int)[k as int] == s@[i + k]);
                assert(!starts_with(s@.skip(i as int), p@));
            }
            return false;
        }
        k = k + 1;
    }
    proof {
        assert forall|t: int| 0 <= t < p@.len() implies s@.skip(i as int)[t] == p@[t] by {
            assert(s@.skip(i as int)[t] == s@[i + t]);
        }
    }
    true
}

/// Reads string content from position `i` (just past the opening quote) up to
/// and over the closing quote; returns the unescaped content and the position
/// after the quote.
fn parse_text_go(s: &[u8], i: usize) -> (r: Option<(Vec<u8>, usize)>)
    requires
        i <= s@.len(),
    ensures
        (r is None) == (parse_text_rest(s@.skip(i as int)) is None),
        r matches Some(p) ==> i < p.1 <= s@.len() && parse_text_rest(s@.skip(i as int)) == Some(
            (p.0@, s@.skip(p.1 as int)),
        ),
    decreases s@.len() - i,
{
    if i == s.len() {
        assert(s@.skip(i as int).len() == 0);
        return None;
    }
    let b = s[i];
    proof {
        assert(s@.skip(i as int)[0] == b);
        assert(s@.skip(i as int).drop_first() =~= s@.skip(i + 1));
    }
    if b == QUOTE {
        let v: Vec<u8> = Vec::new();
        assert(v@ =~= Seq::<u8>::empty());
        Some((v, i + 1))
    } else if b == BACKSLASH {
        if i + 1 < s.len() && (s[i + 1] == QUOTE || s[i + 1] == BACKSLASH) {
            let e = s[i + 1];
            proof {
                assert(s@.skip(i as int)[1] == e);
                assert(s@.skip(i as int).skip(2) =~= s@.skip(i + 2));
            }
            match parse_text_go(s, i + 2) {
                Some((c, j)) => {
                    let ghost c0 = c@;
                    let mut c = c;
                    c.insert(0, e);
                    assert(c@ =~= seq![e] + c0);
                    Some((c, j))
                },
                None => None,
            }
        } else {
            proof {
                if s@.skip(i as int).len() >= 2 {
                    assert(s@.skip(i as int)[1] == s@[i + 1]);
                }
            }
            None
        }
    } else if b < 0x20 {
        None
    } else {
        match parse_text_go(s, i + 1) {
            Some((c, j)) => {
                let ghost c0 = c@;
                let mut c = c;
                c.insert(0, b);
                assert(c@ =~= seq![b] + c0);
                Some((c, j))
            },
            None => None,
        }
    }
}

/// Reads a whole JSON string at position `i`, opening quote included.
fn parse_json_text_at(s: &[u8], i: usize) -> (r: Option<(Vec<u8>, usize)>)
    requires
        i <= s@.len(),
    ensures
        (r is None) == (parse_json_text(s@.skip(i as int)) is None),
        r matches Some(p) ==> i < p.1 <= s@.len() && parse_json_text(s@.skip(i as int)) == Some(
            (p.0@, s@.skip(p.1 as int)),
        ),
{
    if i == s.len() {
        assert(s@.skip(i as int).len() == 0);
        return None;
    }
    proof {
        assert(s@.skip(i as int)[0] == s@[i as int]);
        assert(s@.skip(i as int).drop_first() =~= s@.skip(i + 1));
    }
    if s[i] == QUOTE {
        parse_text_go(s, i + 1)
    } else {
        None
    }
}

/// Reads one category object at position `i`.
fn parse_category_at(s: &[u8], i: usize) -> (r: Option<(crate::models::Category, usize)>)
    requires
        i <= s@.len(),
    ensures
        (r is None) == (parse_category_v(s@.skip(i as int)) is None),
        r matches Some(p) ==> i < p.1 <= s@.len() && parse_category_v(s@.skip(i as int)) == Some(
            (p.0@, s@.skip(p.1 as int)),
        ),
{
    let n = s.len();
    let pref = obj_id_bytes();
    if !at_bytes(s, i, pref.as_slice()) {
        return None;
    }
    assert(i + pref@.len() <= n);
    proof {
        assert(s@.skip(i as int).skip(obj_id_prefix().len() as int) =~= s@.skip(
            i + obj_id_prefix().len(),
        ));
    }
    let after_pref = i + pref.len();
    match parse_json_text_at(s, after_pref) {
        None => None,
        Some((id, j)) => {
            let sep = name_sep_bytes();
            if !at_bytes(s, j, sep.as_slice()) {
                return None;
            }
            assert(j + sep@.len() <= n);
            proof {
                assert(s@.skip(j as int).skip(name_sep().len() as int) =~= s@.skip(
                    j + name_sep().len(),
                ));
            }
            let after_sep = j + sep.len();
            match parse_json_text_at(s, after_sep) {
                None => None,
                Some((name, k)) => {
                    if k < s.len() && s[k] == RBRACE {
                        proof {
                            assert(s@.skip(k as int)[0] == s@[k as int]);
                            assert(s@.skip(k as int).drop_first() =~= s@.skip(k + 1));
                        }
                        Some((crate::models::Category { id, name }, k + 1))
                    } else {
                        proof {
                            if s@.skip(k as int).len() > 0 {
                                assert(s@.skip(k as int)[0] == s@[k as int]);
                            }
                        }
                        None
                    }
                },
            }
        },
    }
}

/// Reads one release object at position `i`.
fn parse_release_at(s: &[u8], i: usize) -> (r: Option<(crate::models::AppRelease, usize)>)
    requires
        i <= s@.len(),
    ensures
        (r is None) == (parse_release_v(s@.skip(i as int)) is None),
        r matches Some(p) ==> i < p.1 <= s@.len() && parse_release_v(s@.skip(i as int)) == Some(
            (p.0@, s@.skip(p.1 as int)),
        ),
{
    let n = s.len();
    let pref = obj_version_bytes();
    if !at_bytes(s, i, pref.as_slice()) {
        return None;
    }
    assert(i + pref@.len() <= n);
    proof {
        assert(s@.skip(i as int).skip(obj_version_prefix().len() as int) =~= s@.skip(
            i + obj_version_prefix().len(),
        ));
    }
    let after_pref = i + pref.len();
    match parse_json_text_at(s, after_pref) {
        None => None,
        Some((version, j)) => {
            let sep = download_sep_bytes();
            if !at_bytes(s, j, sep.as_slice()) {
                return None;
            }
            assert(j + sep@.len() <= n);
            proof {
                assert(s@.skip(j as int).skip(download_sep().len() as int) =~= s@.skip(
                    j + download_sep().len(),
                ));
            }
            let after_sep = j + sep.len();
            match parse_json_text_at(s, after_sep) {
                None => None,
                Some((download, k)) => {
                    if k < s.len() && s[k] == RBRACE {
                        proof {
                            assert(s@.skip(k as int)[0] == s@[k as int]);
                            assert(s@.skip(k as int).drop_first() =~= s@.skip(k + 1));
                        }
                        Some((crate::models::AppRelease { version, download }, k + 1))
                    } else {
                        proof {
                            if s@.skip(k as int).len() > 0 {
                                assert(s@.skip(k as int)[0] == s@[k as int]);
                            }
                        }
                        None
                    }
                },
            }
        },
    }
}

/// Reads the releases after the first, from position `i`.
fn parse_rels_go(s: &[u8], i: usize) -> (r: Option<(Vec<crate::models::AppRelease>, usize)>)
    requires
        i <= s@.len(),
    ensures
        (r is None) == (parse_rels_rest(s@.skip(i as int)) is None),
        r matches Some(p) ==> i < p.1 <= s@.len() && parse_rels_rest(s@.skip(i as int)) == Some(
            (crate::models::rel_views(p.0@), s@.skip(p.1 as int)),
        ),
    decreases s@.len() - i,
{
    if i == s.len() {
        assert(s@.skip(i as int).len() == 0);
        return None;
    }
    let b = s[i];
    proof {
        assert(s@.skip(i as int)[0] == b);
        assert(s@.skip(i as int).drop_first() =~= s@.skip(i + 1));
    }
    if b == RBRACK {
        let v: Vec<crate::models::AppRelease> = Vec::new();
        assert(crate::models::rel_views(v@) =~= Seq::<AppReleaseView>::empty());
        Some((v, i + 1))
    } else if b == COMMA {
        match parse_release_at(s, i + 1) {
            None => None,
            Some((rel, j)) => match parse_rels_go(s, j) {
                None => None,
                Some((rest, k)) => {
                    let ghost rest0 = rest@;
                    let mut rest = rest;
                    rest.insert(0, rel);
                    assert(rest@ =~= seq![rel] + rest0);
                    assert(crate::models::rel_views(rest@) =~= seq![rel@] + crate::models::rel_views(
                        rest0,
                    ));
                    Some((rest, k))
                },
            },
        }
    } else {
        None
    }
}

/// Reads a whole release array at position `i`.
fn parse_rel_array_at(s: &[u8], i: usize) -> (r: Option<(Vec<crate::models::AppRelease>, usize)>)
    requires
        i <= s@.len(),
    ensures
        (r is None) == (parse_rel_array(s@.skip(i as int)) is None),
        r matches Some(p) ==> i < p.1 <= s@.len() && parse_rel_array(s@.skip(i as int)) == Some(
            (crate::models::rel_views(p.0@), s@.skip(p.1 as int)),
        ),
{
    if i == s.len() {
        assert(s@.skip(i as int).len() == 0);
        return None;
    }
    proof {
        assert(s@.skip(i as int)[0] == s@[i as int]);
        assert(s@.skip(i as int).drop_first() =~= s@.skip(i + 1));
    }
    if s[i] != LBRACK {
        return None;
    }
    if i + 1 < s.len() && s[i + 1] == RBRACK {
        proof {
            assert(s@.skip(i + 1)[0] == s@[i + 1]);
            assert(s@.skip(i + 1).drop_first() =~= s@.skip(i + 2));
        }
        let v: Vec<crate::models::AppRelease> = Vec::new();
        assert(crate::models::rel_views(v@) =~= Seq::<AppReleaseView>::empty());
        return Some((v, i + 2));
    }
    proof {
        if s@.skip(i + 1).len() > 0 {
            assert(s@.skip(i + 1)[0] == s@[i + 1]);
        }
    }
    match parse_release_at(s, i + 1) {
        None => None,
        Some((first, j)) => match parse_rels_go(s, j) {
            None => None,
            Some((rest, k)) => {
                let ghost rest0 = rest@;
                let mut rest = rest;
                rest.insert(0, first);
                assert(rest@ =~= seq![first] + rest0);
                assert(crate::models::rel_views(rest@) =~= seq![first@]
                    + crate::models::rel_views(rest0));
                Some((rest, k))
            },
        },
    }
}

/// Reads one app object at position `i`.
fn parse_app_at(s: &[u8], i: usize) -> (r: Option<(crate::models::App, usize)>)
    requires
        i <= s@.len(),
    ensures
        (r is None) == (parse_app_v(s@.skip(i as int)) is None),
        r matches Some(p) ==> i < p.1 <= s@.len() && parse_app_v(s@.skip(i as int)) == Some(
            (p.0@, s@.skip(p.1 as int)),
        ),
{
    let n = s.len();
    let pref = obj_id_bytes();
    if !at_bytes(s, i, pref.as_slice()) {
        return None;
    }
    assert(i + pref@.len() <= n);
    proof {
        assert(s@.skip(i as int).skip(obj_id_prefix().len() as int) =~= s@.skip(
            i + obj_id_prefix().len(),
        ));
    }
    let after_pref = i + pref.len();
    match parse_json_text_at(s, after_pref) {
        None => None,
        Some((id, j)) => {
            let sep = name_sep_bytes();
            if !at_bytes(s, j, sep.as_slice()) {
                return None;
            }
            assert(j + sep@.len() <= n);
            proof {
                assert(s@.skip(j as int).skip(name_sep().len() as int) =~= s@.skip(
                    j + name_sep().len(),
                ));
            }
            let after_sep = j + sep.len();
            match parse_json_text_at(s, after_sep) {
                None => None,
                Some((name, k)) => {
                    let rsep = releases_sep_bytes();
                    if !at_bytes(s, k, rsep.as_slice()) {
                        return None;
                    }
                    assert(k + rsep@.len() <= n);
                    proof {
                        assert(s@.skip(k as int).skip(releases_sep().len() as int) =~= s@.skip(
                            k + releases_sep().len(),
                        ));
                    }
                    let after_rsep = k + rsep.len();
                    match parse_rel_array_at(s, after_rsep) {
                        None => None,
                        Some((releases, m)) => {
                            if m < s.len() && s[m] == RBRACE {
                                proof {
                                    assert(s@.skip(m as int)[0] == s@[m as int]);
                                    assert(s@.skip(m as int).drop_first() =~= s@.skip(m + 1));
                                }
                                Some((crate::models::App { id, name, releases }, m + 1))
                            } else {
                                proof {
                                    if s@.skip(m as int).len() > 0 {
                                        assert(s@.skip(m as int)[0] == s@[m as int]);
                                    }
                                }
                                None
                            }
                        },
                    }
                },
            }
        },
    }
}

/// Reads the categories after the first, from position `i`.
fn parse_cats_go(s: &[u8], i: usize) -> (r: Option<(Vec<crate::models::Category>, usize)>)
    requires
        i <= s@.len(),
    ensures
        (r is None) == (parse_cats_rest(s@.skip(i as int)) is None),
        r matches Some(p) ==> i < p.1 <= s@.len() && parse_cats_rest(s@.skip(i as int)) == Some(
            (crate::json::cat_views(p.0@), s@.skip(p.1 as int)),
        ),
    decreases s@.len() - i,
{
    if i == s.len() {
        assert(s@.skip(i as int).len() == 0);
        return None;
    }
    let b = s[i];
    proof {
        assert(s@.skip(i as int)[0] == b);
        assert(s@.skip(i as int).drop_first() =~= s@.skip(i + 1));
    }
    if b == RBRACK {
        let v: Vec<crate::models::Category> = Vec::new();
        assert(crate::json::cat_views(v@) =~= Seq::<CategoryView>::empty());
        Some((v, i + 1))
    } else if b == COMMA {
        match parse_category_at(s, i + 1) {
            None => None,
            Some((c, j)) => match parse_cats_go(s, j) {
                None => None,
                Some((rest, k)) => {
                    let ghost rest0 = rest@;
                    let mut rest = rest;
                    rest.insert(0, c);
                    assert(rest@ =~= seq![c] + rest0);
                    assert(crate::json::cat_views(rest@) =~= seq![c@] + crate::json::cat_views(
                        rest0,
                    ));
                    Some((rest, k))
                },
            },
        }
    } else {
        None
    }
}

/// Reads the apps after the first, from position `i`.
fn parse_apps_go(s: &[u8], i: usize) -> (r: Option<(Vec<crate::models::App>, usize)>)
    requires
        i <= s@.len(),
    ensures
        (r is None) == (parse_apps_rest(s@.skip(i as int)) is None),
        r matches Some(p) ==> i < p.1 <= s@.len() && parse_apps_rest(s@.skip(i as int)) == Some(
            (crate::json::app_views(p.0@), s@.skip(p.1 as int)),
        ),
    decreases s@.len() - i,
{
    if i == s.len() {
        assert(s@.skip(i as int).len() == 0);
        return None;
    }
    let b = s[i];
    proof {
        assert(s@.skip(i as int)[0] == b);
        assert(s@.skip(i as int).drop_first() =~= s@.skip(i + 1));
    }
    if b == RBRACK {
        let v: Vec<crate::models::App> = Vec::new();
        assert(crate::json::app_views(v@) =~= Seq::<AppView>::empty());
        Some((v, i + 1))
    } else if b == COMMA {
        match parse_app_at(s, i + 1) {
            None => None,
            Some((a, j)) => match parse_apps_go(s, j) {
                None => None,
                Some((rest, k)) => {
                    let ghost rest0 = rest@;
                    let mut rest = rest;
                    rest.insert(0, a);
                    assert(rest@ =~= seq![a] + rest0);
                    assert(crate::json::app_views(rest@) =~= seq![a@] + crate::json::app_views(
                        rest0,
                    ));
                    Some((rest, k))
                },
            },
        }
    } else {
        None
    }
}

/// Decodes a whole category listing body; `None` when the body deviates from
/// the canonical grammar in any way.
pub fn decode_categories(body: &[u8]) -> (r: Option<Vec<crate::models::Category>>)
    ensures
        (r is None) == (parse_categories_v(body@) is None),
        r matches Some(cs) ==> parse_categories_v(body@) == Some(crate::json::cat_views(cs@)),
{
    if body.len() == 0 {
        return None;
    }
    proof {
        assert(body@.drop_first() =~= body@.skip(1));
    }
    if body[0] != LBRACK {
        return None;
    }
    if body.len() >= 2 && body[1] == RBRACK {
        proof {
            assert(body@.skip(1)[0] == body@[1]);
        }
        if body.len() == 2 {
            let v: Vec<crate::models::Category> = Vec::new();
            assert(crate::json::cat_views(v@) =~= Seq::<CategoryView>::empty());
            return Some(v);
        } else {
            return None;
        }
    }
    proof {
        if body@.skip(1).len() > 0 {
            assert(body@.skip(1)[0] == body@[1]);
        }
    }
    match parse_category_at(body, 1) {
        None => None,
        Some((first, j)) => match parse_cats_go(body, j) {
            None => None,
            Some((rest, k)) => {
                if k == body.len() {
                    let ghost rest0 = rest@;
                    let mut rest = rest;
                    rest.insert(0, first);
                    assert(rest@ =~= seq![first] + rest0);
                    assert(crate::json::cat_views(rest@) =~= seq![first@]
                        + crate::json::cat_views(rest0));
                    Some(rest)
                } else {
                    None
                }
            },
        },
    }
}

/// Decodes a whole app listing body; `None` when the body deviates from the
/// canonical grammar in any way.
pub fn decode_apps(body: &[u8]) -> (r: Option<Vec<crate::models::App>>)
    ensures
        (r is None) == (parse_apps_v(body@) is None),
        r matches Some(aps) ==> parse_apps_v(body@) == Some(crate::json::app_views(aps@)),
{
    if body.len() == 0 {
        return None;
    }
    proof {
        assert(body@.drop_first() =~= body@.skip(1));
    }
    if body[0] != LBRACK {
        return None;
    }
    if body.len() >= 2 && body[1] == RBRACK {
        proof {
            assert(body@.skip(1)[0] == body@[1]);
        }
        if body.len() == 2 {
            let v: Vec<crate::models::App> = Vec::new();
            assert(crate::json::app_views(v@) =~= Seq::<AppView>::empty());
            return Some(v);
        } else {
            return None;
        }
    }
    proof {
        if body@.skip(1).len() > 0 {
            assert(body@.skip(1)[0] == body@[1]);
        }
    }
    match parse_app_at(body, 1) {
        None => None,
        Some((first, j)) => match parse_apps_go(body, j) {
            None => None,
            Some((rest, k)) => {
                if k == body.len() {
                    let ghost rest0 = rest@;
                    let mut rest = rest;
                    rest.insert(0, first);
                    assert(rest@ =~= seq![first] + rest0);
                    assert(crate::json::app_views(rest@) =~= seq![first@]
                        + crate::json::app_views(rest0));
                    Some(rest)
                } else {
                    None
                }
            },
        },
    }
}

/// A whole app listing body: the entire input must be one array.
pub open spec fn parse_apps_v(s: Seq<u8>) -> Option<Seq<AppView>> {
    if s.len() == 0 || s[0] != LBRACK {
        None
    } else {
        let t = s.drop_first();
        if t.len() > 0 && t[0] == RBRACK {
            if t.len() == 1 {
                Some(Seq::empty())
            } else {
                None
            }
        } else {
            match parse_app_v(t) {
                Some(p) => match parse_apps_rest(p.1) {
                    Some(q) => if q.1.len() == 0 {
                        Some(seq![p.0] + q.0)
                    } else {
                        None
                    },
                    None => None,
                },
                None => None,
            }
        }
    }
}

} // verus!
