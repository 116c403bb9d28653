//! File names and prompt directories.

use vstd::prelude::*;
use std::path::PathBuf;
use crate::text::slice_of;

verus! {

/// The index of the last `c` in `s`.
pub open spec fn last_index_of(s: Seq<char>, c: char) -> Option<int>
    decreases s.len(),
{
    if s.len() == 0 {
        None
    } else if s.last() == c {
        Some(s.len() - 1)
    } else {
        last_index_of(s.drop_last(), c)
    }
}

/// Where a file name parts into stem and extension: at its last dot, unless
/// the name has none, begins with its only dot, or is `..`.
pub open spec fn extension_dot(name: Seq<char>) -> Option<int> {
    if name == seq!['.', '.'] {
        None
    } else {
        match last_index_of(name, '.') {
            Some(dot) if dot > 0 => Some(dot),
            _ => None,
        }
    }
}

/// The stem of a file name: what stands before the dot of the extension, or
/// the whole name if it has no extension.
pub open spec fn stem_of(name: Seq<char>) -> Seq<char> {
    match extension_dot(name) {
        Some(dot) => name.take(dot),
        None => name,
    }
}

/// The extension of a file name, without its dot.
pub open spec fn extension_of(name: Seq<char>) -> Option<Seq<char>> {
    match extension_dot(name) {
        Some(dot) => Some(name.skip(dot + 1)),
        None => None,
    }
}

/// Whether `extension` is `md` in upper or lower case.
pub open spec fn is_markdown_extension(extension: Seq<char>) -> bool {
    &&& extension.len() == 2
    &&& (extension[0] == 'm' || extension[0] == 'M')
    &&& (extension[1] == 'd' || extension[1] == 'D')
}

/// The stem of a file name whose extension marks a prompt file.
pub open spec fn markdown_stem(name: Seq<char>) -> Option<Seq<char>> {
    match extension_of(name) {
        Some(extension) if is_markdown_extension(extension) => Some(stem_of(name)),
        _ => None,
    }
}

/// Finds the last `c` in `s`.
pub fn find_last(s: &Vec<char>, c: char) -> (r: Option<usize>)
    ensures
        match r {
            Some(i) => last_index_of(s@, c) == Some(i as int) && i < s.len(),
            None => last_index_of(s@, c) is None,
        },
{
    let mut i: usize = s.len();
    assert(s@.take(i as int) =~= s@);
    while i > 0
        invariant
            i <= s.len(),
            last_index_of(s@, c) == last_index_of(s@.take(i as int), c),
        decreases i,
    {
        if s[i - 1] == c {
            return Some(i - 1);
        }
        assert(s@.take(i as int).drop_last() =~= s@.take(i - 1));
        i -= 1;
    }
    None
}

/// The stem of the file name `name`, if its extension is `md` in any case.
pub fn prompt_file_stem(name: &Vec<char>) -> (r: Option<Vec<char>>)
    ensures
        match r {
            Some(stem) => markdown_stem(name@) == Some(stem@),
            None => markdown_stem(name@) is None,
        },
{
    let n = name.len();
    if n == 2 && name[0] == '.' && name[1] == '.' {
        assert(name@ =~= seq!['.', '.']);
        return None;
    }
    assert(name@ != seq!['.', '.']) by {
        if name@ == seq!['.', '.'] {
            assert(seq!['.', '.'].len() == 2);
            assert(seq!['.', '.'][0] == '.');
            assert(seq!['.', '.'][1] == '.');
        }
    }
    match find_last(name, '.') {
        Some(dot) => {
            if dot > 0 && n - dot == 3 && (name[dot + 1] == 'm' || name[dot + 1] == 'M') && (name[dot
                + 2] == 'd' || name[dot + 2] == 'D') {
                Some(slice_of(name, 0, dot))
            } else {
                None
            }
        },
        None => None,
    }
}

/// The path that `Path::join` makes of `base` and the relative path `child`.
pub uninterp spec fn joined(base: PathBuf, child: Seq<char>) -> PathBuf;

/// `Path::join`: the path `child` below `base`. The result is determined by
/// the two arguments.
#[verifier::external_body]
fn join(base: &PathBuf, child: &str) -> (r: PathBuf)
    ensures
        r == joined(*base, child@),
{
    base.join(child)
}

/// The name of the prompt directory below the configuration directory.
pub open spec fn prompts_dir_name() -> Seq<char> {
    seq!['p', 'r', 'o', 'm', 'p', 't', 's']
}

/// The prompt directory below a project's root, as a relative path.
pub open spec fn project_prompts_path() -> Seq<char> {
    seq!['.', 'c', 'o', 'd', 'e', 'x', '/', 'p', 'r', 'o', 'm', 'p', 't', 's']
}

/// The default prompt directory: `prompts` below the configuration
/// directory `home`. Without a configuration directory there is none.
pub fn default_prompts_dir(home: Option<PathBuf>) -> (r: Option<PathBuf>)
    ensures
        r == match home {
            Some(dir) => Some(joined(dir, prompts_dir_name())),
            None => None,
        },
{
    match home {
        Some(dir) => {
            proof {
                reveal_strlit("prompts");
                assert("prompts"@ =~= prompts_dir_name());
            }
            Some(join(&dir, "prompts"))
        },
        None => None,
    }
}

/// The prompt directory of the project whose root is `root`:
/// `.codex/prompts` below it.
pub fn project_prompts_dir(root: &PathBuf) -> (r: PathBuf)
    ensures
        r == joined(*root, project_prompts_path()),
{
    proof {
        reveal_strlit(".codex/prompts");
        assert(".codex/prompts"@ =~= project_prompts_path());
    }
    join(root, ".codex/prompts")
}

} // verus!
