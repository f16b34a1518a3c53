//! Attribution of an access to the package whose code made it, from the
//! script names on the JavaScript call stack.

use vstd::prelude::*;
use crate::policy::root_package;
use crate::text::{
    chars_eq, chars_find, chars_starts_with, find_spec, from_chars, has_prefix, to_chars,
};

verus! {

/// The origin used when no script could be attributed.
pub open spec fn unknown_origin() -> Seq<char> {
    "Unknown (Internal/Async)"@
}

/// The package name of the script at `path`:
/// - `root` for an empty path, the unknown origin, `node:` and `internal/` scripts;
/// - `eval` for code run with `-e` (`[eval]`);
/// - for a path under `node_modules/`, the first path component after it, or
///   the first two for a scoped `@scope/name` package;
/// - `root` for anything else.
pub open spec fn package_of_origin(path: Seq<char>) -> Seq<char> {
    if path.len() == 0 || path == unknown_origin() {
        root_package()
    } else if path == "[eval]"@ {
        seq!['e', 'v', 'a', 'l']
    } else if has_prefix(path, "node:"@) || has_prefix(path, "internal/"@) {
        root_package()
    } else {
        match find_spec(path, "node_modules/"@) {
            Some(idx) => {
                let after = path.skip(idx + "node_modules/"@.len());
                if after.len() > 0 && after[0] == '@' {
                    match find_spec(after, seq!['/']) {
                        Some(s1) => match find_spec(after.skip(s1 + 1), seq!['/']) {
                            Some(s2) => after.take(s1 + 1 + s2),
                            None => after,
                        },
                        None => after,
                    }
                } else {
                    match find_spec(after, seq!['/']) {
                        Some(s1) => after.take(s1),
                        None => after,
                    }
                }
            },
            None => root_package(),
        }
    }
}

/// The package name of the script at `path` (see [`package_of_origin`]).
pub fn extract_package_name(path: &str) -> (r: &str)
    ensures
        r@ == package_of_origin(path@),
{
    proof {
        reveal_strlit("root");
        reveal_strlit("eval");
    }
    let p = to_chars(path);
    if p.len() == 0 || chars_eq(&p, &to_chars("Unknown (Internal/Async)")) {
        return "root";
    }
    if chars_eq(&p, &to_chars("[eval]")) {
        return "eval";
    }
    if chars_starts_with(&p, &to_chars("node:")) || chars_starts_with(&p, &to_chars("internal/")) {
        return "root";
    }
    let nm = to_chars("node_modules/");
    let slash: Vec<char> = vec!['/'];
    assert(slash@ =~= seq!['/']);
    match chars_find(&p, &nm) {
        Some(idx) => {
            let start = idx + nm.len();
            let ghost after = p@.skip(start as int);
            let after_chars = to_chars(path.substring_char(start, p.len()));
            assert(after_chars@ =~= after);
            if after_chars.len() > 0 && after_chars[0] == '@' {
                if let Some(s1) = chars_find(&after_chars, &slash) {
                    let rest = to_chars(path.substring_char(start + s1 + 1, p.len()));
                    assert(rest@ =~= after.skip(s1 + 1));
                    if let Some(s2) = chars_find(&rest, &slash) {
                        let r = path.substring_char(start, start + s1 + 1 + s2);
                        assert(r@ =~= after.take(s1 + 1 + s2));
                        return r;
                    }
                }
            } else if let Some(s1) = chars_find(&after_chars, &slash) {
                let r = path.substring_char(start, start + s1);
                assert(r@ =~= after.take(s1 as int));
                return r;
            }
            path.substring_char(start, p.len())
        },
        None => "root",
    }
}

/// A script name to which an access can be attributed: not empty, and not one
/// of Node's own `node:` or `internal/` scripts.
pub open spec fn is_user_script(name: Seq<char>) -> bool {
    name.len() > 0 && !has_prefix(name, "node:"@) && !has_prefix(name, "internal/"@)
}

/// The origin found by walking the stack frames from the innermost outward:
/// the first frame whose script name could be read and is a user script, or
/// nothing when there is none.
pub open spec fn frame_origin(names: Seq<Option<Seq<char>>>) -> Seq<char>
    decreases names.len(),
{
    if names.len() == 0 {
        Seq::empty()
    } else {
        let prev = frame_origin(names.drop_last());
        if prev.len() > 0 {
            prev
        } else {
            match names.last() {
                Some(n) => if is_user_script(n) {
                    n
                } else {
                    Seq::empty()
                },
                None => Seq::empty(),
            }
        }
    }
}

/// Law: a frame name is a user script exactly when it is not empty and does
/// not begin with `node:` or with `internal/`; only its start counts, so every
/// absolute path is a user script, whatever directories it names.
pub proof fn user_scripts_by_their_start(name: Seq<char>)
    ensures
        is_user_script(name) <==> (name.len() > 0 && !(name.len() >= 5 && name.subrange(0, 5)
            == seq!['n', 'o', 'd', 'e', ':']) && !(name.len() >= 9 && name.subrange(0, 9) == seq![
            'i',
            'n',
            't',
            'e',
            'r',
            'n',
            'a',
            'l',
            '/',
        ])),
        name.len() > 0 && name[0] == '/' ==> is_user_script(name),
{
    reveal_strlit("node:");
    reveal_strlit("internal/");
    assert("node:"@ =~= seq!['n', 'o', 'd', 'e', ':']);
    assert("internal/"@ =~= seq!['i', 'n', 't', 'e', 'r', 'n', 'a', 'l', '/']);
    if name.len() >= 5 {
        assert(name.take(5) =~= name.subrange(0, 5));
    }
    if name.len() >= 9 {
        assert(name.take(9) =~= name.subrange(0, 9));
    }
    if name.len() > 0 && name[0] == '/' {
        if name.len() >= 5 {
            assert(name.subrange(0, 5)[0] == '/');
        }
        if name.len() >= 9 {
            assert(name.subrange(0, 9)[0] == '/');
        }
    }
}

/// Frames outside the innermost ones do not change an origin already found.
proof fn lemma_frame_origin_prefix(front: Seq<Option<Seq<char>>>, rest: Seq<Option<Seq<char>>>)
    requires
        frame_origin(front).len() > 0,
    ensures
        frame_origin(front + rest) == frame_origin(front),
    decreases rest.len(),
{
    if rest.len() == 0 {
        assert(front + rest =~= front);
    } else {
        assert((front + rest).drop_last() =~= front + rest.drop_last());
        lemma_frame_origin_prefix(front, rest.drop_last());
    }
}

/// Law: when the innermost frame's script name is an absolute path, that
/// script is the stack's origin, whatever the outer frames hold.
pub proof fn absolute_innermost_frame_is_the_origin(
    name: Seq<char>,
    rest: Seq<Option<Seq<char>>>,
)
    requires
        name.len() > 0,
        name[0] == '/',
    ensures
        frame_origin(seq![Some(name)] + rest) == name,
{
    user_scripts_by_their_start(name);
    let front = seq![Some(name)];
    assert(front.drop_last() =~= Seq::<Option<Seq<char>>>::empty());
    assert(frame_origin(Seq::<Option<Seq<char>>>::empty()) == Seq::<char>::empty());
    assert(front.last() == Some(name));
    assert(is_user_script(name));
    assert(frame_origin(front) == name);
    lemma_frame_origin_prefix(front, rest);
}

/// Law: the stack's origin is the innermost readable user script, and is
/// empty exactly when no readable frame name is a user script. Node's own
/// scripts therefore never become the origin.
pub proof fn frame_origin_is_first_user_script(names: Seq<Option<Seq<char>>>)
    ensures
        frame_origin(names).len() > 0 ==> is_user_script(frame_origin(names)) && exists|i: int|
            0 <= i < names.len() && names[i] == Some(frame_origin(names)) && forall|j: int|
                0 <= j < i ==> !(#[trigger] names[j] matches Some(n) && is_user_script(n)),
        frame_origin(names).len() == 0 <==> forall|i: int|
            0 <= i < names.len() ==> !(#[trigger] names[i] matches Some(n) && is_user_script(n)),
    decreases names.len(),
{
    if names.len() > 0 {
        let init = names.drop_last();
        frame_origin_is_first_user_script(init);
        assert forall|j: int| 0 <= j < init.len() implies init[j] == names[j] by {}
        if frame_origin(init).len() > 0 {
            let i = choose|i: int|
                0 <= i < init.len() && init[i] == Some(frame_origin(init)) && forall|j: int|
                    0 <= j < i ==> !(#[trigger] init[j] matches Some(n) && is_user_script(n));
            assert(names[i] == Some(frame_origin(names)));
            assert(names[i] matches Some(n) && is_user_script(n));
        } else {
            let l = names.len() - 1;
            assert(names.last() == names[l]);
            if frame_origin(names).len() > 0 {
                assert(names[l] == Some(frame_origin(names)));
            }
        }
    }
}

/// The outcome of attributing one access.
pub struct Attribution {
    /// The package the access is attributed to.
    pub package: String,
    /// The new value of the remembered origin, when the stack held a user
    /// script; `None` leaves the remembered origin as it was.
    pub remembered: Option<String>,
}

/// The character sequences of the readable frame names.
pub open spec fn names_view(v: Seq<Option<String>>) -> Seq<Option<Seq<char>>> {
    v.map_values(|o: Option<String>| match o {
        Some(s) => Some(s@),
        None => None,
    })
}

/// Attributes an access from the script names of the stack frames (`None`
/// for a frame whose name could not be read) and the origin remembered from
/// earlier accesses (`None` when it cannot be read). The first user script on
/// the stack, when there is one, is used and becomes the remembered origin;
/// otherwise the remembered origin is used, and stays as it was, or the
/// unknown origin when there is none.
#[verifier::rlimit(40)]
pub fn attribute_frames(names: &Vec<Option<String>>, remembered: Option<&str>) -> (r: Attribution)
    ensures
        ({
            let local = frame_origin(names_view(names@));
            let origin = if local.len() > 0 {
                local
            } else {
                match remembered {
                    Some(s) => s@,
                    None => unknown_origin(),
                }
            };
            &&& r.package@ == package_of_origin(origin)
            &&& if local.len() > 0 {
                r.remembered matches Some(m) && m@ == local
            } else {
                r.remembered is None
            }
        }),
{
    let node = to_chars("node:");
    let internal = to_chars("internal/");
    let mut local: Vec<char> = Vec::new();
    for i in 0..names.len()
        invariant
            node@ == "node:"@,
            internal@ == "internal/"@,
            local@ == frame_origin(names_view(names@).take(i as int)),
    {
        let ghost nv = names_view(names@);
        assert(nv.take(i + 1).drop_last() =~= nv.take(i as int));
        if local.len() > 0 {
            assert(local@ == frame_origin(nv.take(i + 1)));
        } else {
            match &names[i] {
                Some(n) => {
                    let c = to_chars(n.as_str());
                    if c.len() > 0 && !chars_starts_with(&c, &node) && !chars_starts_with(
                        &c,
                        &internal,
                    ) {
                        local = c;
                    }
                },
                None => {},
            }
            assert(local@ == frame_origin(nv.take(i + 1)));
        }
    }
    assert(names_view(names@).take(names.len() as int) =~= names_view(names@));
    if local.len() > 0 {
        let origin = from_chars(&local);
        let package = extract_package_name(origin.as_str());
        Attribution { package: from_chars(&to_chars(package)), remembered: Some(origin) }
    } else {
        let package = match remembered {
            Some(s) => extract_package_name(s),
            None => extract_package_name("Unknown (Internal/Async)"),
        };
        Attribution { package: from_chars(&to_chars(package)), remembered: None }
    }
}

/// A stack of at least this many frames is reported as an anomaly.
pub const STACK_ANOMALY_DEPTH: i32 = 50;

/// Whether a stack of `frame_count` frames is unusually deep.
pub fn is_stack_anomaly(frame_count: i32) -> (r: bool)
    ensures
        r == (frame_count >= STACK_ANOMALY_DEPTH),
{
    frame_count >= STACK_ANOMALY_DEPTH
}

} // verus!
