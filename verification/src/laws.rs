//! The laws the codec and the publish flow obey, proved once and for all.
//!
//! The central one: a listing encoded by `crate::json` decodes through
//! `crate::parse` back to exactly the values that were encoded, for every
//! list whose texts are free of control bytes.

use vstd::prelude::*;

use crate::error::AppstoreError;
use crate::json::{
    enc_app, enc_app_release, enc_app_releases, enc_apps, enc_apps_rest, enc_categories,
    enc_cats_rest, enc_category, enc_rels_rest, esc_byte, esc_bytes, json_string, lit_name,
    lit_releases, BACKSLASH, COMMA, LBRACE, LBRACK, QUOTE, RBRACE, RBRACK,
};
use crate::models::{text_wf, AppReleaseView, AppView, CategoryView};
use crate::parse::{
    download_sep, name_sep, obj_id_prefix, obj_version_prefix, parse_app_v, parse_apps_rest,
    parse_apps_v, parse_categories_v, parse_category_v, parse_cats_rest, parse_json_text,
    parse_rel_array, parse_release_v, parse_rels_rest, parse_text_rest, releases_sep, starts_with,
};
use crate::publish::{publish_outcome, token_wf};

verus! {

proof fn lemma_starts_with_take(s: Seq<u8>, p: Seq<u8>)
    requires
        p.len() <= s.len(),
        s.take(p.len() as int) == p,
    ensures
        starts_with(s, p),
{
    assert forall|k: int| 0 <= k < p.len() implies s[k] == p[k] by {
        assert(s.take(p.len() as int)[k] == s[k]);
    }
}

/// Escaped text followed by a closing quote parses back to the text.
proof fn lemma_escape_roundtrip(c: Seq<u8>, z: Seq<u8>)
    requires
        text_wf(c),
    ensures
        parse_text_rest(esc_bytes(c) + seq![QUOTE] + z) == Some((c, z)),
    decreases c.len(),
{
    let s = esc_bytes(c) + seq![QUOTE] + z;
    if c.len() == 0 {
        assert(esc_bytes(c) =~= Seq::<u8>::empty());
        assert(s =~= seq![QUOTE] + z);
        assert(s[0] == QUOTE);
        assert(s.drop_first() =~= z);
    } else {
        let b = c[0];
        let c1 = c.drop_first();
        assert(text_wf(c1));
        assert(b >= 0x20);
        assert(esc_bytes(c) == esc_byte(b) + esc_bytes(c1));
        lemma_escape_roundtrip(c1, z);
        let s1 = esc_bytes(c1) + seq![QUOTE] + z;
        assert(seq![b] + c1 =~= c);
        if b == QUOTE {
            assert(s =~= seq![BACKSLASH, QUOTE] + s1);
            assert(s[0] == BACKSLASH && s[1] == QUOTE);
            assert(s.skip(2) =~= s1);
        } else if b == BACKSLASH {
            assert(s =~= seq![BACKSLASH, BACKSLASH] + s1);
            assert(s[0] == BACKSLASH && s[1] == BACKSLASH);
            assert(s.skip(2) =~= s1);
        } else {
            assert(s =~= seq![b] + s1);
            assert(s[0] == b);
            assert(s.drop_first() =~= s1);
        }
    }
}

/// A JSON string followed by anything parses back to its text.
proof fn lemma_json_string_roundtrip(c: Seq<u8>, z: Seq<u8>)
    requires
        text_wf(c),
    ensures
        parse_json_text(json_string(c) + z) == Some((c, z)),
{
    let s = json_string(c) + z;
    assert(s[0] == QUOTE);
    assert(s.drop_first() =~= esc_bytes(c) + seq![QUOTE] + z);
    lemma_escape_roundtrip(c, z);
}

/// An encoded category followed by anything parses back to itself.
proof fn lemma_category_roundtrip(c: CategoryView, z: Seq<u8>)
    requires
        c.wf(),
    ensures
        parse_category_v(enc_category(c) + z) == Some((c, z)),
{
    let s = enc_category(c) + z;
    let rest1 = seq![COMMA] + lit_name() + json_string(c.name) + seq![RBRACE] + z;
    let rest2 = seq![RBRACE] + z;
    assert(obj_id_prefix().len() == 6);
    assert(s.take(6) =~= obj_id_prefix());
    lemma_starts_with_take(s, obj_id_prefix());
    assert(s.skip(6) =~= json_string(c.id) + rest1);
    lemma_json_string_roundtrip(c.id, rest1);
    assert(name_sep().len() == 8);
    assert(rest1.take(8) =~= name_sep());
    lemma_starts_with_take(rest1, name_sep());
    assert(rest1.skip(8) =~= json_string(c.name) + rest2);
    lemma_json_string_roundtrip(c.name, rest2);
    assert(rest2[0] == RBRACE);
    assert(rest2.drop_first() =~= z);
}

/// An encoded release followed by anything parses back to itself.
proof fn lemma_release_roundtrip(r: AppReleaseView, z: Seq<u8>)
    requires
        r.wf(),
    ensures
        parse_release_v(enc_app_release(r) + z) == Some((r, z)),
{
    let s = enc_app_release(r) + z;
    let rest1 = seq![COMMA] + crate::json::lit_download() + json_string(r.download) + seq![RBRACE]
        + z;
    let rest2 = seq![RBRACE] + z;
    assert(obj_version_prefix().len() == 11);
    assert(s.take(11) =~= obj_version_prefix());
    lemma_starts_with_take(s, obj_version_prefix());
    assert(s.skip(11) =~= json_string(r.version) + rest1);
    lemma_json_string_roundtrip(r.version, rest1);
    assert(download_sep().len() == 12);
    assert(rest1.take(12) =~= download_sep());
    lemma_starts_with_take(rest1, download_sep());
    assert(rest1.skip(12) =~= json_string(r.download) + rest2);
    lemma_json_string_roundtrip(r.download, rest2);
    assert(rest2[0] == RBRACE);
    assert(rest2.drop_first() =~= z);
}

/// The tail of an encoded release list parses back to the remaining releases.
proof fn lemma_rels_rest_roundtrip(rs: Seq<AppReleaseView>, z: Seq<u8>)
    requires
        forall|i: int| 0 <= i < rs.len() ==> (#[trigger] rs[i]).wf(),
    ensures
        parse_rels_rest(enc_rels_rest(rs) + seq![RBRACK] + z) == Some((rs, z)),
    decreases rs.len(),
{
    let s = enc_rels_rest(rs) + seq![RBRACK] + z;
    if rs.len() == 0 {
        assert(enc_rels_rest(rs) =~= Seq::<u8>::empty());
        assert(s =~= seq![RBRACK] + z);
        assert(s[0] == RBRACK);
        assert(s.drop_first() =~= z);
        assert(rs =~= Seq::<AppReleaseView>::empty());
    } else {
        let rs1 = rs.drop_first();
        let rest = enc_rels_rest(rs1) + seq![RBRACK] + z;
        assert(s[0] == COMMA);
        assert(s.drop_first() =~= enc_app_release(rs[0]) + rest);
        lemma_release_roundtrip(rs[0], rest);
        lemma_rels_rest_roundtrip(rs1, z);
        assert(seq![rs[0]] + rs1 =~= rs);
    }
}

/// An encoded release array followed by anything parses back to itself.
#[verifier::rlimit(80)]
proof fn lemma_rel_array_roundtrip(rs: Seq<AppReleaseView>, z: Seq<u8>)
    requires
        forall|i: int| 0 <= i < rs.len() ==> (#[trigger] rs[i]).wf(),
    ensures
        parse_rel_array(crate::json::enc_app_releases(rs) + z) == Some((rs, z)),
{
    let s = enc_app_releases(rs) + z;
    if rs.len() == 0 {
        assert(s =~= seq![LBRACK, RBRACK] + z);
        assert(s[0] == LBRACK);
        let t = s.drop_first();
        assert(t =~= seq![RBRACK] + z);
        assert(t[0] == RBRACK);
        assert(t.drop_first() =~= z);
        assert(rs =~= Seq::<AppReleaseView>::empty());
    } else {
        let rs1 = rs.drop_first();
        let rest = enc_rels_rest(rs1) + seq![RBRACK] + z;
        assert(s[0] == LBRACK);
        let t = s.drop_first();
        assert(t =~= enc_app_release(rs[0]) + rest);
        assert(t[0] == LBRACE);
        lemma_release_roundtrip(rs[0], rest);
        lemma_rels_rest_roundtrip(rs1, z);
        assert(seq![rs[0]] + rs1 =~= rs);
    }
}

/// An encoded app followed by anything parses back to itself.
#[verifier::rlimit(100)]
proof fn lemma_app_roundtrip(a: AppView, z: Seq<u8>)
    requires
        a.wf(),
    ensures
        parse_app_v(enc_app(a) + z) == Some((a, z)),
{
    let s = enc_app(a) + z;
    let rest1 = seq![COMMA] + lit_name() + json_string(a.name) + seq![COMMA] + lit_releases()
        + enc_app_releases(a.releases) + seq![RBRACE] + z;
    let rest2 = seq![COMMA] + lit_releases() + enc_app_releases(a.releases) + seq![RBRACE] + z;
    let rest3 = seq![RBRACE] + z;
    assert(obj_id_prefix().len() == 6);
    assert(s.take(6) =~= obj_id_prefix());
    lemma_starts_with_take(s, obj_id_prefix());
    assert(s.skip(6) =~= json_string(a.id) + rest1);
    lemma_json_string_roundtrip(a.id, rest1);
    assert(name_sep().len() == 8);
    assert(rest1.take(8) =~= name_sep());
    lemma_starts_with_take(rest1, name_sep());
    assert(rest1.skip(8) =~= json_string(a.name) + rest2);
    lemma_json_string_roundtrip(a.name, rest2);
    assert(releases_sep().len() == 12);
    assert(rest2.take(12) =~= releases_sep());
    lemma_starts_with_take(rest2, releases_sep());
    assert(rest2.skip(12) =~= enc_app_releases(a.releases) + rest3);
    lemma_rel_array_roundtrip(a.releases, rest3);
    assert(rest3[0] == RBRACE);
    assert(rest3.drop_first() =~= z);
}

/// The tail of an encoded category list parses back to the remaining
/// categories.
proof fn lemma_cats_rest_roundtrip(cs: Seq<CategoryView>, z: Seq<u8>)
    requires
        forall|i: int| 0 <= i < cs.len() ==> (#[trigger] cs[i]).wf(),
    ensures
        parse_cats_rest(enc_cats_rest(cs) + seq![RBRACK] + z) == Some((cs, z)),
    decreases cs.len(),
{
    let s = enc_cats_rest(cs) + seq![RBRACK] + z;
    if cs.len() == 0 {
        assert(enc_cats_rest(cs) =~= Seq::<u8>::empty());
        assert(s =~= seq![RBRACK] + z);
        assert(s[0] == RBRACK);
        assert(s.drop_first() =~= z);
        assert(cs =~= Seq::<CategoryView>::empty());
    } else {
        let cs1 = cs.drop_first();
        let rest = enc_cats_rest(cs1) + seq![RBRACK] + z;
        assert(s[0] == COMMA);
        assert(s.drop_first() =~= enc_category(cs[0]) + rest);
        lemma_category_roundtrip(cs[0], rest);
        lemma_cats_rest_roundtrip(cs1, z);
        assert(seq![cs[0]] + cs1 =~= cs);
    }
}

/// The tail of an encoded app list parses back to the remaining apps.
#[verifier::rlimit(80)]
proof fn lemma_apps_rest_roundtrip(aps: Seq<AppView>, z: Seq<u8>)
    requires
        forall|i: int| 0 <= i < aps.len() ==> (#[trigger] aps[i]).wf(),
    ensures
        parse_apps_rest(enc_apps_rest(aps) + seq![RBRACK] + z) == Some((aps, z)),
    decreases aps.len(),
{
    let s = enc_apps_rest(aps) + seq![RBRACK] + z;
    if aps.len() == 0 {
        assert(enc_apps_rest(aps) =~= Seq::<u8>::empty());
        assert(s =~= seq![RBRACK] + z);
        assert(s[0] == RBRACK);
        assert(s.drop_first() =~= z);
        assert(aps =~= Seq::<AppView>::empty());
    } else {
        let aps1 = aps.drop_first();
        let rest = enc_apps_rest(aps1) + seq![RBRACK] + z;
        assert(s[0] == COMMA);
        assert(s.drop_first() =~= enc_app(aps[0]) + rest);
        lemma_app_roundtrip(aps[0], rest);
        lemma_apps_rest_roundtrip(aps1, z);
        assert(seq![aps[0]] + aps1 =~= aps);
    }
}

/// Round trip of the category listing: encoding any sequence of categories
/// whose texts are free of control bytes, then decoding the body, yields
/// exactly the original sequence.
#[verifier::rlimit(80)]
pub proof fn lemma_categories_roundtrip(cs: Seq<CategoryView>)
    requires
        forall|i: int| 0 <= i < cs.len() ==> (#[trigger] cs[i]).wf(),
    ensures
        parse_categories_v(enc_categories(cs)) == Some(cs),
{
    let s = enc_categories(cs);
    if cs.len() == 0 {
        assert(s =~= seq![LBRACK, RBRACK]);
        assert(s[0] == LBRACK);
        let t = s.drop_first();
        assert(t =~= seq![RBRACK]);
        assert(t[0] == RBRACK && t.len() == 1);
        assert(cs =~= Seq::<CategoryView>::empty());
    } else {
        let cs1 = cs.drop_first();
        let z = enc_cats_rest(cs1) + seq![RBRACK];
        assert(s[0] == LBRACK);
        let t = s.drop_first();
        assert(t =~= enc_category(cs[0]) + z);
        assert(t[0] == LBRACE);
        lemma_category_roundtrip(cs[0], z);
        assert(z =~= enc_cats_rest(cs1) + seq![RBRACK] + Seq::<u8>::empty());
        lemma_cats_rest_roundtrip(cs1, Seq::empty());
        assert(seq![cs[0]] + cs1 =~= cs);
    }
}

/// Round trip of the app listing: encoding any sequence of apps whose texts
/// are free of control bytes, then decoding the body, yields exactly the
/// original sequence.
#[verifier::rlimit(80)]
pub proof fn lemma_apps_roundtrip(aps: Seq<AppView>)
    requires
        forall|i: int| 0 <= i < aps.len() ==> (#[trigger] aps[i]).wf(),
    ensures
        parse_apps_v(enc_apps(aps)) == Some(aps),
{
    let s = enc_apps(aps);
    if aps.len() == 0 {
        assert(s =~= seq![LBRACK, RBRACK]);
        assert(s[0] == LBRACK);
        let t = s.drop_first();
        assert(t =~= seq![RBRACK]);
        assert(t[0] == RBRACK && t.len() == 1);
        assert(aps =~= Seq::<AppView>::empty());
    } else {
        let aps1 = aps.drop_first();
        let z = enc_apps_rest(aps1) + seq![RBRACK];
        assert(s[0] == LBRACK);
        let t = s.drop_first();
        assert(t =~= enc_app(aps[0]) + z);
        assert(t[0] == LBRACE);
        lemma_app_roundtrip(aps[0], z);
        assert(z =~= enc_apps_rest(aps1) + seq![RBRACK] + Seq::<u8>::empty());
        lemma_apps_rest_roundtrip(aps1, Seq::empty());
        assert(seq![aps[0]] + aps1 =~= aps);
    }
}

proof fn lemma_starts_with_split(s: Seq<u8>, p: Seq<u8>)
    requires
        starts_with(s, p),
    ensures
        s == p + s.skip(p.len() as int),
{
    assert(s =~= p + s.skip(p.len() as int));
}

/// Whatever string content the parser accepts is free of control bytes, and
/// what it read is exactly that content's escaped form.
proof fn lemma_text_sound(s: Seq<u8>)
    ensures
        parse_text_rest(s) matches Some(p) ==> text_wf(p.0) && s == esc_bytes(p.0) + seq![QUOTE]
            + p.1,
    decreases s.len(),
{
    if s.len() == 0 {
    } else if s[0] == QUOTE {
        assert(esc_bytes(Seq::<u8>::empty()) =~= Seq::<u8>::empty());
        assert(s =~= esc_bytes(Seq::<u8>::empty()) + seq![QUOTE] + s.drop_first());
    } else if s[0] == BACKSLASH {
        if s.len() >= 2 && (s[1] == QUOTE || s[1] == BACKSLASH) {
            lemma_text_sound(s.skip(2));
            match parse_text_rest(s.skip(2)) {
                Some(q) => {
                    let c = seq![s[1]] + q.0;
                    assert(c[0] == s[1]);
                    assert(c.drop_first() =~= q.0);
                    assert(esc_byte(s[1]) =~= seq![BACKSLASH, s[1]]);
                    assert(esc_bytes(c) == esc_byte(s[1]) + esc_bytes(q.0));
                    assert(s =~= seq![BACKSLASH, s[1]] + s.skip(2));
                    assert(s =~= esc_bytes(c) + seq![QUOTE] + q.1);
                },
                None => {},
            }
        }
    } else if s[0] < 0x20 {
    } else {
        lemma_text_sound(s.drop_first());
        match parse_text_rest(s.drop_first()) {
            Some(q) => {
                let c = seq![s[0]] + q.0;
                assert(c[0] == s[0]);
                assert(c.drop_first() =~= q.0);
                assert(esc_byte(s[0]) =~= seq![s[0]]);
                assert(esc_bytes(c) == esc_byte(s[0]) + esc_bytes(q.0));
                assert(s =~= seq![s[0]] + s.drop_first());
                assert(s =~= esc_bytes(c) + seq![QUOTE] + q.1);
            },
            None => {},
        }
    }
}

/// Whatever JSON string the parser accepts is the canonical form of its
/// content.
proof fn lemma_json_text_sound(s: Seq<u8>)
    ensures
        parse_json_text(s) matches Some(p) ==> text_wf(p.0) && s == json_string(p.0) + p.1,
{
    if s.len() > 0 && s[0] == QUOTE {
        lemma_text_sound(s.drop_first());
        match parse_text_rest(s.drop_first()) {
            Some(q) => {
                assert(s =~= seq![QUOTE] + s.drop_first());
                assert(s =~= json_string(q.0) + q.1);
            },
            None => {},
        }
    }
}

/// Whatever category the parser accepts, the bytes it read are exactly that
/// category's encoding.
proof fn lemma_category_sound(s: Seq<u8>)
    ensures
        parse_category_v(s) matches Some(p) ==> p.0.wf() && s == enc_category(p.0) + p.1,
{
    if starts_with(s, obj_id_prefix()) {
        lemma_starts_with_split(s, obj_id_prefix());
        let s1 = s.skip(obj_id_prefix().len() as int);
        lemma_json_text_sound(s1);
        match parse_json_text(s1) {
            Some(p1) => {
                if starts_with(p1.1, name_sep()) {
                    lemma_starts_with_split(p1.1, name_sep());
                    let s2 = p1.1.skip(name_sep().len() as int);
                    lemma_json_text_sound(s2);
                    match parse_json_text(s2) {
                        Some(p2) => {
                            if p2.1.len() > 0 && p2.1[0] == RBRACE {
                                assert(p2.1 =~= seq![RBRACE] + p2.1.drop_first());
                                let c = CategoryView { id: p1.0, name: p2.0 };
                                assert(s =~= enc_category(c) + p2.1.drop_first());
                            }
                        },
                        None => {},
                    }
                }
            },
            None => {},
        }
    }
}

/// Whatever release the parser accepts, the bytes it read are exactly that
/// release's encoding.
proof fn lemma_release_sound(s: Seq<u8>)
    ensures
        parse_release_v(s) matches Some(p) ==> p.0.wf() && s == enc_app_release(p.0) + p.1,
{
    if starts_with(s, obj_version_prefix()) {
        lemma_starts_with_split(s, obj_version_prefix());
        let s1 = s.skip(obj_version_prefix().len() as int);
        lemma_json_text_sound(s1);
        match parse_json_text(s1) {
            Some(p1) => {
                if starts_with(p1.1, download_sep()) {
                    lemma_starts_with_split(p1.1, download_sep());
                    let s2 = p1.1.skip(download_sep().len() as int);
                    lemma_json_text_sound(s2);
                    match parse_json_text(s2) {
                        Some(p2) => {
                            if p2.1.len() > 0 && p2.1[0] == RBRACE {
                                assert(p2.1 =~= seq![RBRACE] + p2.1.drop_first());
                                let r = AppReleaseView { version: p1.0, download: p2.0 };
                                assert(s =~= enc_app_release(r) + p2.1.drop_first());
                            }
                        },
                        None => {},
                    }
                }
            },
            None => {},
        }
    }
}

/// Whatever release-list tail the parser accepts is exactly the encoding of
/// the releases it returns.
proof fn lemma_rels_rest_sound(s: Seq<u8>)
    ensures
        parse_rels_rest(s) matches Some(p) ==> (forall|i: int|
            0 <= i < p.0.len() ==> (#[trigger] p.0[i]).wf()) && s == enc_rels_rest(p.0)
            + seq![RBRACK] + p.1,
    decreases s.len(),
{
    if s.len() == 0 {
    } else if s[0] == RBRACK {
        assert(enc_rels_rest(Seq::<AppReleaseView>::empty()) =~= Seq::<u8>::empty());
        assert(s =~= enc_rels_rest(Seq::<AppReleaseView>::empty()) + seq![RBRACK]
            + s.drop_first());
    } else if s[0] == COMMA {
        lemma_release_sound(s.drop_first());
        match parse_release_v(s.drop_first()) {
            Some(p) => {
                crate::parse::lemma_parse_release_shrinks(s.drop_first());
                lemma_rels_rest_sound(p.1);
                match parse_rels_rest(p.1) {
                    Some(q) => {
                        let rs = seq![p.0] + q.0;
                        assert(rs[0] == p.0);
                        assert(rs.drop_first() =~= q.0);
                        assert forall|i: int| 0 <= i < rs.len() implies (#[trigger] rs[i]).wf()
                        by {
                            if i > 0 {
                                assert(rs[i] == q.0[i - 1]);
                            }
                        }
                        assert(enc_rels_rest(rs) == seq![COMMA] + enc_app_release(p.0)
                            + enc_rels_rest(q.0));
                        assert(s =~= seq![COMMA] + s.drop_first());
                        assert(s =~= enc_rels_rest(rs) + seq![RBRACK] + q.1);
                    },
                    None => {},
                }
            },
            None => {},
        }
    }
}

/// Whatever release array the parser accepts is exactly the encoding of the
/// releases it returns.
proof fn lemma_rel_array_sound(s: Seq<u8>)
    ensures
        parse_rel_array(s) matches Some(p) ==> (forall|i: int|
            0 <= i < p.0.len() ==> (#[trigger] p.0[i]).wf()) && s == enc_app_releases(p.0) + p.1,
{
    if s.len() > 0 && s[0] == LBRACK {
        let t = s.drop_first();
        if t.len() > 0 && t[0] == RBRACK {
            assert(s =~= seq![LBRACK, RBRACK] + t.drop_first());
            assert(enc_app_releases(Seq::<AppReleaseView>::empty()) =~= seq![LBRACK, RBRACK]);
        } else {
            lemma_release_sound(t);
            match parse_release_v(t) {
                Some(p) => {
                    lemma_rels_rest_sound(p.1);
                    match parse_rels_rest(p.1) {
                        Some(q) => {
                            let rs = seq![p.0] + q.0;
                            assert(rs[0] == p.0);
                            assert(rs.drop_first() =~= q.0);
                            assert forall|i: int| 0 <= i < rs.len() implies (
                            #[trigger] rs[i]).wf() by {
                                if i > 0 {
                                    assert(rs[i] == q.0[i - 1]);
                                }
                            }
                            assert(s =~= seq![LBRACK] + t);
                            assert(s =~= enc_app_releases(rs) + q.1);
                        },
                        None => {},
                    }
                },
                None => {},
            }
        }
    }
}

/// Whatever app the parser accepts, the bytes it read are exactly that app's
/// encoding.
#[verifier::rlimit(100)]
proof fn lemma_app_sound(s: Seq<u8>)
    ensures
        parse_app_v(s) matches Some(p) ==> p.0.wf() && s == enc_app(p.0) + p.1,
{
    if starts_with(s, obj_id_prefix()) {
        lemma_starts_with_split(s, obj_id_prefix());
        let s1 = s.skip(obj_id_prefix().len() as int);
        lemma_json_text_sound(s1);
        match parse_json_text(s1) {
            Some(p1) => {
                if starts_with(p1.1, name_sep()) {
                    lemma_starts_with_split(p1.1, name_sep());
                    let s2 = p1.1.skip(name_sep().len() as int);
                    lemma_json_text_sound(s2);
                    match parse_json_text(s2) {
                        Some(p2) => {
                            if starts_with(p2.1, releases_sep()) {
                                lemma_starts_with_split(p2.1, releases_sep());
                                let s3 = p2.1.skip(releases_sep().len() as int);
                                lemma_rel_array_sound(s3);
                                match parse_rel_array(s3) {
                                    Some(p3) => {
                                        if p3.1.len() > 0 && p3.1[0] == RBRACE {
                                            assert(p3.1 =~= seq![RBRACE] + p3.1.drop_first());
                                            let a = AppView {
                                                id: p1.0,
                                                name: p2.0,
                                                releases: p3.0,
                                            };
                                            assert(s =~= enc_app(a) + p3.1.drop_first());
                                        }
                                    },
                                    None => {},
                                }
                            }
                        },
                        None => {},
                    }
                }
            },
            None => {},
        }
    }
}

/// Whatever category-list tail the parser accepts is exactly the encoding of
/// the categories it returns.
proof fn lemma_cats_rest_sound(s: Seq<u8>)
    ensures
        parse_cats_rest(s) matches Some(p) ==> (forall|i: int|
            0 <= i < p.0.len() ==> (#[trigger] p.0[i]).wf()) && s == enc_cats_rest(p.0)
            + seq![RBRACK] + p.1,
    decreases s.len(),
{
    if s.len() == 0 {
    } else if s[0] == RBRACK {
        assert(enc_cats_rest(Seq::<CategoryView>::empty()) =~= Seq::<u8>::empty());
        assert(s =~= enc_cats_rest(Seq::<CategoryView>::empty()) + seq![RBRACK] + s.drop_first());
    } else if s[0] == COMMA {
        lemma_category_sound(s.drop_first());
        match parse_category_v(s.drop_first()) {
            Some(p) => {
                crate::parse::lemma_parse_category_shrinks(s.drop_first());
                lemma_cats_rest_sound(p.1);
                match parse_cats_rest(p.1) {
                    Some(q) => {
                        let cs = seq![p.0] + q.0;
                        assert(cs[0] == p.0);
                        assert(cs.drop_first() =~= q.0);
                        assert forall|i: int| 0 <= i < cs.len() implies (#[trigger] cs[i]).wf()
                        by {
                            if i > 0 {
                                assert(cs[i] == q.0[i - 1]);
                            }
                        }
                        assert(enc_cats_rest(cs) == seq![COMMA] + enc_category(p.0)
                            + enc_cats_rest(q.0));
                        assert(s =~= seq![COMMA] + s.drop_first());
                        assert(s =~= enc_cats_rest(cs) + seq![RBRACK] + q.1);
                    },
                    None => {},
                }
            },
            None => {},
        }
    }
}

/// Whatever app-list tail the parser accepts is exactly the encoding of the
/// apps it returns.
#[verifier::rlimit(100)]
proof fn lemma_apps_rest_sound(s: Seq<u8>)
    ensures
        parse_apps_rest(s) matches Some(p) ==> (forall|i: int|
            0 <= i < p.0.len() ==> (#[trigger] p.0[i]).wf()) && s == enc_apps_rest(p.0)
            + seq![RBRACK] + p.1,
    decreases s.len(),
{
    if s.len() == 0 {
    } else if s[0] == RBRACK {
        assert(enc_apps_rest(Seq::<AppView>::empty()) =~= Seq::<u8>::empty());
        assert(s =~= enc_apps_rest(Seq::<AppView>::empty()) + seq![RBRACK] + s.drop_first());
    } else if s[0] == COMMA {
        lemma_app_sound(s.drop_first());
        match parse_app_v(s.drop_first()) {
            Some(p) => {
                crate::parse::lemma_parse_app_shrinks(s.drop_first());
                lemma_apps_rest_sound(p.1);
                match parse_apps_rest(p.1) {
                    Some(q) => {
                        let aps = seq![p.0] + q.0;
                        assert(aps[0] == p.0);
                        assert(aps.drop_first() =~= q.0);
                        assert forall|i: int| 0 <= i < aps.len() implies (#[trigger] aps[i]).wf()
                        by {
                            if i > 0 {
                                assert(aps[i] == q.0[i - 1]);
                            }
                        }
                        assert(enc_apps_rest(aps) == seq![COMMA] + enc_app(p.0) + enc_apps_rest(
                            q.0,
                        ));
                        assert(s =~= seq![COMMA] + s.drop_first());
                        assert(s =~= enc_apps_rest(aps) + seq![RBRACK] + q.1);
                    },
                    None => {},
                }
            },
            None => {},
        }
    }
}

/// The category decoder accepts a body only if it is exactly the canonical
/// encoding of the categories it returns, all of them free of control bytes.
/// Together with the round trip this makes encoding and decoding inverse
/// bijections between well-formed category lists and canonical bodies.
#[verifier::rlimit(80)]
pub proof fn lemma_categories_sound(s: Seq<u8>)
    ensures
        parse_categories_v(s) matches Some(cs) ==> (forall|i: int|
            0 <= i < cs.len() ==> (#[trigger] cs[i]).wf()) && s == enc_categories(cs),
{
    if s.len() > 0 && s[0] == LBRACK {
        let t = s.drop_first();
        if t.len() > 0 && t[0] == RBRACK {
            if t.len() == 1 {
                assert(s =~= seq![LBRACK, RBRACK]);
                assert(enc_categories(Seq::<CategoryView>::empty()) =~= seq![LBRACK, RBRACK]);
            }
        } else {
            lemma_category_sound(t);
            match parse_category_v(t) {
                Some(p) => {
                    lemma_cats_rest_sound(p.1);
                    match parse_cats_rest(p.1) {
                        Some(q) => {
                            if q.1.len() == 0 {
                                let cs = seq![p.0] + q.0;
                                assert(cs[0] == p.0);
                                assert(cs.drop_first() =~= q.0);
                                assert forall|i: int| 0 <= i < cs.len() implies (
                                #[trigger] cs[i]).wf() by {
                                    if i > 0 {
                                        assert(cs[i] == q.0[i - 1]);
                                    }
                                }
                                assert(s =~= seq![LBRACK] + t);
                                assert(s =~= enc_categories(cs));
                            }
                        },
                        None => {},
                    }
                },
                None => {},
            }
        }
    }
}

/// The app decoder accepts a body only if it is exactly the canonical
/// encoding of the apps it returns, all of them free of control bytes.
/// Together with the round trip this makes encoding and decoding inverse
/// bijections between well-formed app lists and canonical bodies.
#[verifier::rlimit(80)]
pub proof fn lemma_apps_sound(s: Seq<u8>)
    ensures
        parse_apps_v(s) matches Some(aps) ==> (forall|i: int|
            0 <= i < aps.len() ==> (#[trigger] aps[i]).wf()) && s == enc_apps(aps),
{
    if s.len() > 0 && s[0] == LBRACK {
        let t = s.drop_first();
        if t.len() > 0 && t[0] == RBRACK {
            if t.len() == 1 {
                assert(s =~= seq![LBRACK, RBRACK]);
                assert(enc_apps(Seq::<AppView>::empty()) =~= seq![LBRACK, RBRACK]);
            }
        } else {
            lemma_app_sound(t);
            match parse_app_v(t) {
                Some(p) => {
                    lemma_apps_rest_sound(p.1);
                    match parse_apps_rest(p.1) {
                        Some(q) => {
                            if q.1.len() == 0 {
                                let aps = seq![p.0] + q.0;
                                assert(aps[0] == p.0);
                                assert(aps.drop_first() =~= q.0);
                                assert forall|i: int| 0 <= i < aps.len() implies (
                                #[trigger] aps[i]).wf() by {
                                    if i > 0 {
                                        assert(aps[i] == q.0[i - 1]);
                                    }
                                }
                                assert(s =~= seq![LBRACK] + t);
                                assert(s =~= enc_apps(aps));
                            }
                        },
                        None => {},
                    }
                },
                None => {},
            }
        }
    }
}

/// A publish attempt with a visible-ASCII token whose request the server
/// answers 200 or 201 succeeds.
pub proof fn lemma_publish_accepts(token: Seq<u8>, status: u16)
    requires
        token_wf(token),
        status == 200 || status == 201,
    ensures
        publish_outcome(token, status) is Ok,
{
}

/// A publish attempt with a token holding a byte below 32 or above 127 fails
/// with `InvalidToken`, whatever the server would have answered: the token is
/// rejected before any request exists.
pub proof fn lemma_invalid_token_rejected(token: Seq<u8>, status: u16)
    requires
        !token_wf(token),
    ensures
        publish_outcome(token, status) == Err::<(), AppstoreError>(AppstoreError::InvalidToken),
{
}

} // verus!
