//! Paths as texts, with `/` between their parts.

use vstd::prelude::*;
use vstd::string::*;

use crate::text;

verus! {

/// A name in a directory.
pub open spec fn in_dir(dir: Seq<char>, name: Seq<char>) -> Seq<char> {
    if dir.len() == 0 || dir.last() == '/' {
        dir + name
    } else {
        dir + seq!['/'] + name
    }
}

/// A name in a directory.
pub fn join_path(dir: &str, name: &str) -> (r: String)
    ensures
        r@ == in_dir(dir@, name@),
{
    let n: usize = dir.unicode_len();
    let mut out = dir.to_owned();
    if n > 0 && dir.get_char(n - 1) != '/' {
        out.push('/');
    }
    out.append(name);
    assert(out@ =~= in_dir(dir@, name@));
    out
}

/// The last of the parts of a path that names something.
pub open spec fn last_named(parts: Seq<Seq<char>>) -> Option<Seq<char>>
    decreases parts.len(),
{
    if parts.len() == 0 {
        None
    } else if parts.last().len() == 0 || parts.last() == "."@ {
        last_named(parts.drop_last())
    } else {
        Some(parts.last())
    }
}

/// The file name at the end of a path. A path that leads up at its end has
/// none.
pub open spec fn name_at_end(path: Seq<char>) -> Option<Seq<char>> {
    match last_named(text::pieces(path, "/"@)) {
        Some(name) => if name == ".."@ {
            None
        } else {
            Some(name)
        },
        None => None,
    }
}

/// The file name at the end of a path.
pub fn file_name<'a>(path: &'a str) -> (r: Option<&'a str>)
    ensures
        text::opt_str(r) == name_at_end(path@),
{
    proof {
        reveal_strlit("/");
    }
    let parts = text::split(path, "/");
    let ghost all = text::views(parts@);
    let mut i: usize = parts.len();
    assert(all.take(i as int) =~= all);
    while i > 0
        invariant
            i <= parts.len(),
            all == text::views(parts@),
            all == text::pieces(path@, "/"@),
            last_named(all) == last_named(all.take(i as int)),
        decreases i,
    {
        let part = parts[i - 1];
        assert(all.take(i as int).last() == part@);
        assert(all.take(i as int).drop_last() =~= all.take(i - 1));
        if !part.is_empty() && !text::same(part, ".") {
            return if text::same(part, "..") {
                None
            } else {
                Some(part)
            };
        }
        i -= 1;
    }
    None
}

} // verus!
