//! The canonical JSON wire form of the store's payloads, stated byte by byte.
//!
//! A text is carried as a JSON string: a quote, the text with `"` and `\`
//! escaped by a backslash and control bytes written as `\u00` plus two hex
//! digits, and a closing quote. Objects and arrays are written without any
//! whitespace, with fixed field names in a fixed order.

use vstd::prelude::*;

use vstd::string::StringSliceAdditionalSpecFns;

use crate::models::{AppReleaseView, AppView, CategoryView, NewRelease};

verus! {

pub const QUOTE: u8 = 0x22;
pub const BACKSLASH: u8 = 0x5c;
pub const COMMA: u8 = 0x2c;
pub const LBRACE: u8 = 0x7b;
pub const RBRACE: u8 = 0x7d;
pub const LBRACK: u8 = 0x5b;
pub const RBRACK: u8 = 0x5d;

/// The lower-case hex digit of a nibble.
pub open spec fn hex_digit(n: u8) -> u8 {
    if n < 10 {
        (0x30 + n) as u8
    } else {
        (0x57 + n) as u8
    }
}

/// How one byte of text appears inside a JSON string.
pub open spec fn esc_byte(b: u8) -> Seq<u8> {
    if b == QUOTE {
        seq![BACKSLASH, QUOTE]
    } else if b == BACKSLASH {
        seq![BACKSLASH, BACKSLASH]
    } else if b < 0x20 {
        seq![BACKSLASH, 0x75, 0x30, 0x30, hex_digit(b / 16), hex_digit(b % 16)]
    } else {
        seq![b]
    }
}

/// How a whole text appears inside a JSON string.
pub open spec fn esc_bytes(s: Seq<u8>) -> Seq<u8>
    decreases s.len(),
{
    if s.len() == 0 {
        Seq::empty()
    } else {
        esc_byte(s[0]) + esc_bytes(s.drop_first())
    }
}

/// A full JSON string: quote, escaped text, quote.
pub open spec fn json_string(s: Seq<u8>) -> Seq<u8> {
    seq![QUOTE] + esc_bytes(s) + seq![QUOTE]
}

/// The bytes of `"download":`.
pub open spec fn lit_download() -> Seq<u8> {
    seq![0x22, 0x64, 0x6f, 0x77, 0x6e, 0x6c, 0x6f, 0x61, 0x64, 0x22, 0x3a]
}

/// The bytes of `"signature":`.
pub open spec fn lit_signature() -> Seq<u8> {
    seq![0x22, 0x73, 0x69, 0x67, 0x6e, 0x61, 0x74, 0x75, 0x72, 0x65, 0x22, 0x3a]
}

/// The bytes of `"nightly":`.
pub open spec fn lit_nightly() -> Seq<u8> {
    seq![0x22, 0x6e, 0x69, 0x67, 0x68, 0x74, 0x6c, 0x79, 0x22, 0x3a]
}

/// The bytes of `"id":`.
pub open spec fn lit_id() -> Seq<u8> {
    seq![0x22, 0x69, 0x64, 0x22, 0x3a]
}

/// The bytes of `"name":`.
pub open spec fn lit_name() -> Seq<u8> {
    seq![0x22, 0x6e, 0x61, 0x6d, 0x65, 0x22, 0x3a]
}

/// The bytes of `"version":`.
pub open spec fn lit_version() -> Seq<u8> {
    seq![0x22, 0x76, 0x65, 0x72, 0x73, 0x69, 0x6f, 0x6e, 0x22, 0x3a]
}

/// The bytes of `"releases":`.
pub open spec fn lit_releases() -> Seq<u8> {
    seq![0x22, 0x72, 0x65, 0x6c, 0x65, 0x61, 0x73, 0x65, 0x73, 0x22, 0x3a]
}

/// The bytes of `true`.
pub open spec fn lit_true() -> Seq<u8> {
    seq![0x74, 0x72, 0x75, 0x65]
}

/// The bytes of `false`.
pub open spec fn lit_false() -> Seq<u8> {
    seq![0x66, 0x61, 0x6c, 0x73, 0x65]
}

/// The publication body:
/// `{"download":<d>,"signature":<s>,"nightly":<true|false>}`.
pub open spec fn release_body(d: Seq<u8>, s: Seq<u8>, nightly: bool) -> Seq<u8> {
    seq![LBRACE] + lit_download() + json_string(d) + seq![COMMA] + lit_signature() + json_string(s)
        + seq![COMMA] + lit_nightly() + (if nightly {
        lit_true()
    } else {
        lit_false()
    }) + seq![RBRACE]
}

/// One category: `{"id":<id>,"name":<name>}`.
pub open spec fn enc_category(c: CategoryView) -> Seq<u8> {
    seq![LBRACE] + lit_id() + json_string(c.id) + seq![COMMA] + lit_name() + json_string(c.name)
        + seq![RBRACE]
}

/// The categories after the first: `,<cat>` repeated.
pub open spec fn enc_cats_rest(cs: Seq<CategoryView>) -> Seq<u8>
    decreases cs.len(),
{
    if cs.len() == 0 {
        Seq::empty()
    } else {
        seq![COMMA] + enc_category(cs[0]) + enc_cats_rest(cs.drop_first())
    }
}

/// A category listing: `[]`, or `[<cat>` then `,<cat>` repeated then `]`.
pub open spec fn enc_categories(cs: Seq<CategoryView>) -> Seq<u8> {
    if cs.len() == 0 {
        seq![LBRACK, RBRACK]
    } else {
        seq![LBRACK] + enc_category(cs[0]) + enc_cats_rest(cs.drop_first()) + seq![RBRACK]
    }
}

/// One release: `{"version":<v>,"download":<d>}`.
pub open spec fn enc_app_release(r: AppReleaseView) -> Seq<u8> {
    seq![LBRACE] + lit_version() + json_string(r.version) + seq![COMMA] + lit_download()
        + json_string(r.download) + seq![RBRACE]
}

/// The releases after the first: `,<rel>` repeated.
pub open spec fn enc_rels_rest(rs: Seq<AppReleaseView>) -> Seq<u8>
    decreases rs.len(),
{
    if rs.len() == 0 {
        Seq::empty()
    } else {
        seq![COMMA] + enc_app_release(rs[0]) + enc_rels_rest(rs.drop_first())
    }
}

/// A release list: `[]`, or `[<rel>` then `,<rel>` repeated then `]`.
pub open spec fn enc_app_releases(rs: Seq<AppReleaseView>) -> Seq<u8> {
    if rs.len() == 0 {
        seq![LBRACK, RBRACK]
    } else {
        seq![LBRACK] + enc_app_release(rs[0]) + enc_rels_rest(rs.drop_first()) + seq![RBRACK]
    }
}

/// One app: `{"id":<id>,"name":<name>,"releases":<releases>}`.
pub open spec fn enc_app(a: AppView) -> Seq<u8> {
    seq![LBRACE] + lit_id() + json_string(a.id) + seq![COMMA] + lit_name() + json_string(a.name)
        + seq![COMMA] + lit_releases() + enc_app_releases(a.releases) + seq![RBRACE]
}

/// The apps after the first: `,<app>` repeated.
pub open spec fn enc_apps_rest(aps: Seq<AppView>) -> Seq<u8>
    decreases aps.len(),
{
    if aps.len() == 0 {
        Seq::empty()
    } else {
        seq![COMMA] + enc_app(aps[0]) + enc_apps_rest(aps.drop_first())
    }
}

/// An app listing: `[]`, or `[<app>` then `,<app>` repeated then `]`.
pub open spec fn enc_apps(aps: Seq<AppView>) -> Seq<u8> {
    if aps.len() == 0 {
        seq![LBRACK, RBRACK]
    } else {
        seq![LBRACK] + enc_app(aps[0]) + enc_apps_rest(aps.drop_first()) + seq![RBRACK]
    }
}

/// The views of a sequence of categories.
pub open spec fn cat_views(cs: Seq<crate::models::Category>) -> Seq<CategoryView> {
    cs.map_values(|c: crate::models::Category| c@)
}

/// The views of a sequence of apps.
pub open spec fn app_views(aps: Seq<crate::models::App>) -> Seq<AppView> {
    aps.map_values(|a: crate::models::App| a@)
}

pub(crate) fn push_lit_download(out: &mut Vec<u8>)
    ensures
        final(out)@ == old(out)@ + lit_download(),
{
    out.push(0x22);
    out.push(0x64);
    out.push(0x6f);
    out.push(0x77);
    out.push(0x6e);
    out.push(0x6c);
    out.push(0x6f);
    out.push(0x61);
    out.push(0x64);
    out.push(0x22);
    out.push(0x3a);
    assert(out@ =~= old(out)@ + lit_download());
}

pub(crate) fn push_lit_signature(out: &mut Vec<u8>)
    ensures
        final(out)@ == old(out)@ + lit_signature(),
{
    out.push(0x22);
    out.push(0x73);
    out.push(0x69);
    out.push(0x67);
    out.push(0x6e);
    out.push(0x61);
    out.push(0x74);
    out.push(0x75);
    out.push(0x72);
    out.push(0x65);
    out.push(0x22);
    out.push(0x3a);
    assert(out@ =~= old(out)@ + lit_signature());
}

pub(crate) fn push_lit_nightly(out: &mut Vec<u8>)
    ensures
        final(out)@ == old(out)@ + lit_nightly(),
{
    out.push(0x22);
    out.push(0x6e);
    out.push(0x69);
    out.push(0x67);
    out.push(0x68);
    out.push(0x74);
    out.push(0x6c);
    out.push(0x79);
    out.push(0x22);
    out.push(0x3a);
    assert(out@ =~= old(out)@ + lit_nightly());
}

pub(crate) fn push_lit_id(out: &mut Vec<u8>)
    ensures
        final(out)@ == old(out)@ + lit_id(),
{
    out.push(0x22);
    out.push(0x69);
    out.push(0x64);
    out.push(0x22);
    out.push(0x3a);
    assert(out@ =~= old(out)@ + lit_id());
}

pub(crate) fn push_lit_name(out: &mut Vec<u8>)
    ensures
        final(out)@ == old(out)@ + lit_name(),
{
    out.push(0x22);
    out.push(0x6e);
    out.push(0x61);
    out.push(0x6d);
    out.push(0x65);
    out.push(0x22);
    out.push(0x3a);
    assert(out@ =~= old(out)@ + lit_name());
}

pub(crate) fn push_lit_version(out: &mut Vec<u8>)
    ensures
        final(out)@ == old(out)@ + lit_version(),
{
    out.push(0x22);
    out.push(0x76);
    out.push(0x65);
    out.push(0x72);
    out.push(0x73);
    out.push(0x69);
    out.push(0x6f);
    out.push(0x6e);
    out.push(0x22);
    out.push(0x3a);
    assert(out@ =~= old(out)@ + lit_version());
}

pub(crate) fn push_lit_releases(out: &mut Vec<u8>)
    ensures
        final(out)@ == old(out)@ + lit_releases(),
{
    out.push(0x22);
    out.push(0x72);
    out.push(0x65);
    out.push(0x6c);
    out.push(0x65);
    out.push(0x61);
    out.push(0x73);
    out.push(0x65);
    out.push(0x73);
    out.push(0x22);
    out.push(0x3a);
    assert(out@ =~= old(out)@ + lit_releases());
}

pub(crate) fn push_bool(out: &mut Vec<u8>, b: bool)
    ensures
        final(out)@ == old(out)@ + (if b {
            lit_true()
        } else {
            lit_false()
        }),
{
    if b {
        out.push(0x74);
        out.push(0x72);
        out.push(0x75);
        out.push(0x65);
        assert(out@ =~= old(out)@ + lit_true());
    } else {
        out.push(0x66);
        out.push(0x61);
        out.push(0x6c);
        out.push(0x73);
        out.push(0x65);
        assert(out@ =~= old(out)@ + lit_false());
    }
}

/// Appends the JSON string form of `s`: quotes around it, with `"`, `\` and
/// control bytes escaped.
pub(crate) fn push_json_string(out: &mut Vec<u8>, s: &[u8])
    ensures
        final(out)@ == old(out)@ + json_string(s@),
{
    out.push(QUOTE);
    let ghost start = out@;
    proof {
        assert(s@.skip(0) =~= s@);
    }
    let mut i: usize = 0;
    while i < s.len()
        invariant
            i <= s@.len(),
            start == old(out)@ + seq![QUOTE],
            out@ + esc_bytes(s@.skip(i as int)) == start + esc_bytes(s@),
        decreases s@.len() - i,
    {
        let ghost pre = out@;
        let b = s[i];
        proof {
            assert(s@.skip(i as int)[0] == b);
            assert(s@.skip(i as int).drop_first() =~= s@.skip(i + 1));
            assert(esc_bytes(s@.skip(i as int)) == esc_byte(b) + esc_bytes(s@.skip(i + 1)));
        }
        if b == QUOTE {
            out.push(BACKSLASH);
            out.push(QUOTE);
            assert(out@ =~= pre + esc_byte(b));
        } else if b == BACKSLASH {
            out.push(BACKSLASH);
            out.push(BACKSLASH);
            assert(out@ =~= pre + esc_byte(b));
        } else if b < 0x20 {
            let hi = b / 16;
            let lo = b % 16;
            out.push(BACKSLASH);
            out.push(0x75);
            out.push(0x30);
            out.push(0x30);
            out.push(if hi < 10 { 0x30 + hi } else { 0x57 + hi });
            out.push(if lo < 10 { 0x30 + lo } else { 0x57 + lo });
            assert(out@ =~= pre + esc_byte(b));
        } else {
            out.push(b);
            assert(out@ =~= pre + esc_byte(b));
        }
        proof {
            assert(out@ + esc_bytes(s@.skip(i + 1)) =~= pre + esc_bytes(s@.skip(i as int)));
        }
        i = i + 1;
    }
    proof {
        assert(s@.skip(s@.len() as int) =~= Seq::<u8>::empty());
        assert(out@ =~= start + esc_bytes(s@));
    }
    out.push(QUOTE);
    assert(out@ =~= old(out)@ + json_string(s@));
}

/// The serialized publication body for a release, exactly
/// `{"download":"<url>","signature":"<sig>","nightly":<true|false>}`.
pub fn encode_release(release: &NewRelease<'_>) -> (r: Vec<u8>)
    ensures
        r@ == release_body(
            release.download.spec_bytes(),
            release.signature.spec_bytes(),
            release.nightly,
        ),
{
    let mut out: Vec<u8> = Vec::new();
    out.push(LBRACE);
    push_lit_download(&mut out);
    push_json_string(&mut out, release.download.as_bytes());
    out.push(COMMA);
    push_lit_signature(&mut out);
    push_json_string(&mut out, release.signature.as_bytes());
    out.push(COMMA);
    push_lit_nightly(&mut out);
    push_bool(&mut out, release.nightly);
    out.push(RBRACE);
    assert(out@ =~= release_body(
        release.download.spec_bytes(),
        release.signature.spec_bytes(),
        release.nightly,
    ));
    out
}

fn push_category(out: &mut Vec<u8>, c: &crate::models::Category)
    ensures
        final(out)@ == old(out)@ + enc_category(c@),
{
    out.push(LBRACE);
    push_lit_id(out);
    push_json_string(out, c.id.as_slice());
    out.push(COMMA);
    push_lit_name(out);
    push_json_string(out, c.name.as_slice());
    out.push(RBRACE);
    assert(out@ =~= old(out)@ + enc_category(c@));
}

/// The canonical listing body for a sequence of categories.
pub fn encode_categories(cats: &Vec<crate::models::Category>) -> (r: Vec<u8>)
    ensures
        r@ == enc_categories(cat_views(cats@)),
{
    let ghost views = cat_views(cats@);
    let mut out: Vec<u8> = Vec::new();
    out.push(LBRACK);
    if cats.len() == 0 {
        out.push(RBRACK);
        assert(out@ =~= enc_categories(views));
        return out;
    }
    push_category(&mut out, &cats[0]);
    let mut i: usize = 1;
    while i < cats.len()
        invariant
            1 <= i <= cats@.len(),
            views == cat_views(cats@),
            views.len() == cats@.len(),
            out@ + enc_cats_rest(views.skip(i as int)) + seq![RBRACK] == enc_categories(views),
        decreases cats@.len() - i,
    {
        let ghost pre = out@;
        proof {
            assert(views.skip(i as int)[0] == views[i as int]);
            assert(views.skip(i as int).drop_first() =~= views.skip(i + 1));
            assert(enc_cats_rest(views.skip(i as int)) == seq![COMMA] + enc_category(views[i as int])
                + enc_cats_rest(views.skip(i + 1)));
        }
        out.push(COMMA);
        push_category(&mut out, &cats[i]);
        proof {
            assert(out@ =~= pre + seq![COMMA] + enc_category(views[i as int]));
            assert(out@ + enc_cats_rest(views.skip(i + 1)) + seq![RBRACK] =~= pre + enc_cats_rest(
                views.skip(i as int),
            ) + seq![RBRACK]);
        }
        i = i + 1;
    }
    proof {
        assert(views.skip(i as int) =~= Seq::<CategoryView>::empty());
    }
    out.push(RBRACK);
    assert(out@ =~= enc_categories(views));
    out
}

fn push_app_release(out: &mut Vec<u8>, r: &crate::models::AppRelease)
    ensures
        final(out)@ == old(out)@ + enc_app_release(r@),
{
    out.push(LBRACE);
    push_lit_version(out);
    push_json_string(out, r.version.as_slice());
    out.push(COMMA);
    push_lit_download(out);
    push_json_string(out, r.download.as_slice());
    out.push(RBRACE);
    assert(out@ =~= old(out)@ + enc_app_release(r@));
}

fn push_app_releases(out: &mut Vec<u8>, rs: &Vec<crate::models::AppRelease>)
    ensures
        final(out)@ == old(out)@ + enc_app_releases(crate::models::rel_views(rs@)),
{
    let ghost views = crate::models::rel_views(rs@);
    out.push(LBRACK);
    if rs.len() == 0 {
        out.push(RBRACK);
        assert(out@ =~= old(out)@ + enc_app_releases(views));
        return ;
    }
    push_app_release(out, &rs[0]);
    let mut i: usize = 1;
    while i < rs.len()
        invariant
            1 <= i <= rs@.len(),
            views == crate::models::rel_views(rs@),
            views.len() == rs@.len(),
            out@ + enc_rels_rest(views.skip(i as int)) + seq![RBRACK] == old(out)@
                + enc_app_releases(views),
        decreases rs@.len() - i,
    {
        let ghost pre = out@;
        proof {
            assert(views.skip(i as int)[0] == views[i as int]);
            assert(views.skip(i as int).drop_first() =~= views.skip(i + 1));
            assert(enc_rels_rest(views.skip(i as int)) == seq![COMMA] + enc_app_release(
                views[i as int],
            ) + enc_rels_rest(views.skip(i + 1)));
        }
        out.push(COMMA);
        push_app_release(out, &rs[i]);
        proof {
            assert(out@ =~= pre + seq![COMMA] + enc_app_release(views[i as int]));
            assert(out@ + enc_rels_rest(views.skip(i + 1)) + seq![RBRACK] =~= pre + enc_rels_rest(
                views.skip(i as int),
            ) + seq![RBRACK]);
        }
        i = i + 1;
    }
    proof {
        assert(views.skip(i as int) =~= Seq::<AppReleaseView>::empty());
    }
    out.push(RBRACK);
    assert(out@ =~= old(out)@ + enc_app_releases(views));
}

fn push_app(out: &mut Vec<u8>, a: &crate::models::App)
    ensures
        final(out)@ == old(out)@ + enc_app(a@),
{
    out.push(LBRACE);
    push_lit_id(out);
    push_json_string(out, a.id.as_slice());
    out.push(COMMA);
    push_lit_name(out);
    push_json_string(out, a.name.as_slice());
    out.push(COMMA);
    push_lit_releases(out);
    push_app_releases(out, &a.releases);
    out.push(RBRACE);
    assert(out@ =~= old(out)@ + enc_app(a@));
}

/// The canonical listing body for a sequence of apps.
pub fn encode_apps(apps: &Vec<crate::models::App>) -> (r: Vec<u8>)
    ensures
        r@ == enc_apps(app_views(apps@)),
{
    let ghost views = app_views(apps@);
    let mut out: Vec<u8> = Vec::new();
    out.push(LBRACK);
    if apps.len() == 0 {
        out.push(RBRACK);
        assert(out@ =~= enc_apps(views));
        return out;
    }
    push_app(&mut out, &apps[0]);
    let mut i: usize = 1;
    while i < apps.len()
        invariant
            1 <= i <= apps@.len(),
            views == app_views(apps@),
            views.len() == apps@.len(),
            out@ + enc_apps_rest(views.skip(i as int)) + seq![RBRACK] == enc_apps(views),
        decreases apps@.len() - i,
    {
        let ghost pre = out@;
        proof {
            assert(views.skip(i as int)[0] == views[i as int]);
            assert(views.skip(i as int).drop_first() =~= views.skip(i + 1));
            assert(enc_apps_rest(views.skip(i as int)) == seq![COMMA] + enc_app(views[i as int])
                + enc_apps_rest(views.skip(i + 1)));
        }
        out.push(COMMA);
        push_app(&mut out, &apps[i]);
        proof {
            assert(out@ =~= pre + seq![COMMA] + enc_app(views[i as int]));
            assert(out@ + enc_apps_rest(views.skip(i + 1)) + seq![RBRACK] =~= pre + enc_apps_rest(
                views.skip(i as int),
            ) + seq![RBRACK]);
        }
        i = i + 1;
    }
    proof {
        assert(views.skip(i as int) =~= Seq::<AppView>::empty());
    }
    out.push(RBRACK);
    assert(out@ =~= enc_apps(views));
    out
}

} // verus!
