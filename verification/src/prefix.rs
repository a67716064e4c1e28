//! The paths of the service.
use vstd::prelude::*;

use crate::text::{
    chars_of, law_trimming_leaves_the_inside, lemma_trimmed_end, trim, trim_end, trimmed,
    trimmed_end, trimmed_start, white_space, CharSet,
};

verus! {

/// `s` with a slash in front, where it has none there.
pub open spec fn rooted(s: Seq<char>) -> Seq<char> {
    if s.len() > 0 && s.first() == '/' {
        s
    } else {
        seq!['/'] + s
    }
}

/// The path prefix that a setting stands for: without white space around it,
/// with a slash in front and none behind. A setting of which nothing is left
/// stands for no prefix.
pub open spec fn path_prefix(setting: Seq<char>) -> Option<Seq<char>> {
    let prefix = trimmed_end(rooted(trimmed(setting, CharSet::WhiteSpace)), CharSet::Slash);
    if prefix.len() == 0 {
        None
    } else {
        Some(prefix)
    }
}

/// Reads a path prefix from a setting.
pub fn normalize_prefix(s: &str) -> (prefix: Option<String>)
    ensures
        match prefix {
            Some(p) => path_prefix(s@) == Some(p@),
            None => path_prefix(s@) is None,
        },
{
    let s = trim(s, CharSet::WhiteSpace);
    let chars = chars_of(s);
    let mut pref = String::new();
    if chars.len() == 0 || chars[0] != '/' {
        pref.push('/');
    }
    pref.append(s);
    assert(pref@ =~= rooted(s@));
    let path = trim_end(pref.as_str(), CharSet::Slash);
    if path.is_empty() {
        None
    } else {
        Some(path.to_string())
    }
}

/// The second path of the page below a prefix; the first is the prefix itself.
pub fn prefixed_ui_route(prefix: &str) -> (route: String)
    ensures
        route@ == prefix@ + "/ui"@,
{
    let mut route = prefix.to_string();
    route.append("/ui");
    route
}

// ---------------------------------------------------------------------------
// Laws
// ---------------------------------------------------------------------------

/// A prefix begins with a slash, does not end with one, and names something.
pub proof fn law_prefix_shape(setting: Seq<char>)
    requires
        path_prefix(setting) is Some,
    ensures
        path_prefix(setting)->0.len() >= 2,
        path_prefix(setting)->0.first() == '/',
        path_prefix(setting)->0.last() != '/',
{
    let path = rooted(trimmed(setting, CharSet::WhiteSpace));
    lemma_trimmed_end(path, CharSet::Slash);
}

/// There is no prefix if and only if the setting holds nothing but slashes
/// between the white space around it.
pub proof fn law_no_prefix_from_slashes(setting: Seq<char>)
    ensures
        path_prefix(setting) is None <==> (forall|i: int|
            0 <= i < trimmed(setting, CharSet::WhiteSpace).len() ==> #[trigger] trimmed(
                setting,
                CharSet::WhiteSpace,
            )[i] == '/'),
{
    let inner = trimmed(setting, CharSet::WhiteSpace);
    let path = rooted(inner);
    lemma_trimmed_end(path, CharSet::Slash);
    if path_prefix(setting) is None {
        assert forall|i: int| 0 <= i < inner.len() implies #[trigger] inner[i] == '/' by {
            if inner.first() == '/' {
                assert(path[i] == inner[i]);
            } else {
                assert(path[i + 1] == inner[i]);
            }
        }
    } else {
        let kept = trimmed_end(path, CharSet::Slash);
        let k = kept.len() - 1;
        assert(path[k] == kept[k]);
        assert(path[k] != '/');
        if inner.len() > 0 && inner.first() == '/' {
            assert(inner[k] != '/');
        } else {
            assert(path[0] == '/');
            assert(inner[k - 1] != '/');
        }
    }
}

/// A prefix that does not end with white space stands for itself.
pub proof fn law_prefix_is_stable(setting: Seq<char>)
    requires
        path_prefix(setting) is Some,
        !CharSet::WhiteSpace.holds(path_prefix(setting)->0.last()),
    ensures
        path_prefix(path_prefix(setting)->0) == path_prefix(setting),
{
    law_prefix_shape(setting);
    let prefix = path_prefix(setting)->0;
    assert(trimmed_start(prefix, CharSet::WhiteSpace) == prefix);
    assert(trimmed(prefix, CharSet::WhiteSpace) == prefix);
}

/// The paths of the service with a prefix are six different ones, unless the
/// prefix is one of the fixed paths itself.
pub proof fn law_routes_do_not_clash(setting: Seq<char>)
    requires
        path_prefix(setting) is Some,
        path_prefix(setting)->0 != "/ui"@,
        path_prefix(setting)->0 != "/healthz"@,
        path_prefix(setting)->0 != "/metrics"@,
    ensures
        ({
            let prefix = path_prefix(setting)->0;
            seq![
                "/"@,
                "/ui"@,
                "/healthz"@,
                "/metrics"@,
                prefix,
                prefix + "/ui"@,
            ].no_duplicates()
        }),
{
    law_prefix_shape(setting);
    reveal_strlit("/");
    reveal_strlit("/ui");
    reveal_strlit("/healthz");
    reveal_strlit("/metrics");
    let prefix = path_prefix(setting)->0;
    let page = prefix + "/ui"@;
    assert(page.len() >= 5);
    assert(page.last() == 'i');
    assert("/healthz"@.last() == 'z');
    assert("/metrics"@.last() == 's');
    assert("/ui"@[1] == 'u');
    assert("/healthz"@[1] == 'h');
    assert("/metrics"@[1] == 'm');
}

/// A setting is, between white space, something that does not end with a slash,
/// and slashes behind it. That something is the prefix, with a slash in front
/// where it has none. Slashes alone, and nothing at all, are no prefix.
pub proof fn law_prefix_of_a_setting(
    before: Seq<char>,
    path: Seq<char>,
    slashes: Seq<char>,
    behind: Seq<char>,
)
    requires
        forall|i: int| 0 <= i < before.len() ==> white_space(#[trigger] before[i]),
        forall|i: int| 0 <= i < behind.len() ==> white_space(#[trigger] behind[i]),
        forall|i: int| 0 <= i < slashes.len() ==> #[trigger] slashes[i] == '/',
        path.len() > 0 ==> path.last() != '/' && !white_space(path.first()),
        path.len() > 0 && slashes.len() == 0 ==> !white_space(path.last()),
    ensures
        ({
            let prefix = path_prefix(before + (path + slashes) + behind);
            &&& path.len() == 0 ==> prefix is None
            &&& path.len() > 0 && path.first() == '/' ==> prefix == Some(path)
            &&& path.len() > 0 && path.first() != '/' ==> prefix == Some(seq!['/'] + path)
        }),
{
    let inside = path + slashes;
    if inside.len() > 0 {
        if path.len() > 0 {
            assert(inside.first() == path.first());
        } else {
            assert(inside.first() == slashes[0]);
        }
        if slashes.len() > 0 {
            assert(inside.last() == slashes[slashes.len() - 1]);
        } else {
            assert(inside.last() == path.last());
        }
    }
    law_trimming_leaves_the_inside(before, inside, behind, CharSet::WhiteSpace);
    let none = Seq::<char>::empty();
    let kept = if path.len() == 0 || path.first() == '/' {
        path
    } else {
        seq!['/'] + path
    };
    if path.len() > 0 {
        assert(rooted(inside) =~= kept + slashes);
        assert(kept.last() == path.last());
        lemma_slashes_go(kept, slashes);
    } else if slashes.len() > 0 {
        assert(inside =~= slashes);
        assert(rooted(inside) =~= none + slashes);
        lemma_slashes_go(none, slashes);
    } else {
        assert(inside =~= none);
        assert(rooted(inside) =~= none + seq!['/']);
        lemma_slashes_go(none, seq!['/']);
    }
}

/// Slashes behind a text are trimmed.
proof fn lemma_slashes_go(text: Seq<char>, slashes: Seq<char>)
    requires
        text.len() > 0 ==> text.last() != '/',
        forall|i: int| 0 <= i < slashes.len() ==> #[trigger] slashes[i] == '/',
    ensures
        trimmed_end(text + slashes, CharSet::Slash) == text,
    decreases slashes.len(),
{
    if slashes.len() > 0 {
        let less = slashes.drop_last();
        assert forall|i: int| 0 <= i < less.len() implies #[trigger] less[i] == '/' by {
            assert(less[i] == slashes[i]);
        }
        assert(slashes[slashes.len() - 1] == '/');
        lemma_slashes_go(text, less);
        assert((text + slashes).drop_last() =~= text + less);
    } else {
        assert(text + slashes =~= text);
    }
}

} // verus!
