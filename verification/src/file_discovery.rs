//! Which paths are R source files, and the errors of collecting them.

use vstd::prelude::*;

verus! {

/// Why input paths could not be turned into a list of R files.
#[derive(Debug, Clone, PartialEq, Eq)]
pub enum FileDiscoveryError {
    /// A file was named that is not an `.R` file.
    NonRFilePath { path: String },
    /// A directory could not be walked, or a path does not exist.
    WalkError { path: String, message: String },
}

/// The last component of `path`, ignoring trailing slashes.
pub open spec fn file_name(path: Seq<char>) -> Seq<char>
    decreases path.len(),
{
    if path.len() > 0 && path.last() == '/' {
        file_name(path.drop_last())
    } else {
        last_component(path)
    }
}

/// What follows the last `/` of `path` (all of it when there is none).
pub open spec fn last_component(path: Seq<char>) -> Seq<char>
    decreases path.len(),
{
    if path.len() == 0 || path.last() == '/' {
        seq![]
    } else {
        last_component(path.drop_last()).push(path.last())
    }
}

/// The extension of a file name: what follows its last `.`, unless there is
/// no `.` or the only one begins the name (a hidden file), or the name is
/// `..`.
pub open spec fn extension(name: Seq<char>) -> Option<Seq<char>> {
    if name == seq!['.', '.'] {
        None
    } else {
        match last_dot(name) {
            Some(p) => if p == 0 {
                None
            } else {
                Some(name.subrange(p + 1, name.len() as int))
            },
            None => None,
        }
    }
}

/// The index of the last `.` of `s`.
pub open spec fn last_dot(s: Seq<char>) -> Option<int>
    decreases s.len(),
{
    if s.len() == 0 {
        None
    } else if s.last() == '.' {
        Some(s.len() - 1)
    } else {
        last_dot(s.drop_last())
    }
}

/// `path` names an R source file: its extension is `r` or `R`.
pub open spec fn r_file(path: Seq<char>) -> bool {
    extension(file_name(path)) == Some(seq!['r']) || extension(file_name(path)) == Some(seq!['R'])
}

/// Whether `path` names an R source file (extension `r` in any case).
pub fn is_r_file(path: &str) -> (b: bool)
    ensures
        b == r_file(path@),
{
    let chars = crate::parser::lexer::chars_of(path);
    let mut end = chars.len();
    proof {
        assert(chars@.subrange(0, end as int) =~= chars@);
    }
    while end > 0 && chars[end - 1] == '/'
        invariant
            end <= chars@.len(),
            file_name(chars@) == file_name(chars@.subrange(0, end as int)),
        decreases end,
    {
        proof {
            assert(chars@.subrange(0, end as int).drop_last() =~= chars@.subrange(0, end - 1));
        }
        end -= 1;
    }
    let mut start = end;
    while start > 0 && chars[start - 1] != '/'
        invariant
            start <= end <= chars@.len(),
            last_component(chars@.subrange(0, end as int)) == last_component(
                chars@.subrange(0, start as int),
            ) + chars@.subrange(start as int, end as int),
        decreases start,
    {
        proof {
            assert(chars@.subrange(0, start as int).drop_last() =~= chars@.subrange(0, start - 1));
            assert(chars@.subrange(start - 1, end as int) =~= seq![chars@[start - 1]]
                + chars@.subrange(start as int, end as int));
        }
        start -= 1;
    }
    let ghost name = chars@.subrange(start as int, end as int);
    proof {
        assert(last_component(chars@.subrange(0, start as int)) =~= Seq::<char>::empty()) by {
            if start > 0 {
                assert(chars@.subrange(0, start as int).last() == '/');
            }
        }
        assert(name =~= last_component(chars@.subrange(0, start as int)) + name);
        if end > 0 {
            assert(chars@.subrange(0, end as int).last() != '/');
        }
    }
    proof {
        if end > 0 {
            assert(file_name(chars@.subrange(0, end as int)) == last_component(
                chars@.subrange(0, end as int),
            ));
        } else {
            assert(chars@.subrange(0, 0) =~= Seq::<char>::empty());
        }
        assert(file_name(chars@) == name);
        assert(chars@.subrange(start as int, start as int) =~= Seq::<char>::empty());
    }
    let mut dot: Option<usize> = None;
    let mut k = start;
    while k < end
        invariant
            start <= k <= end <= chars@.len(),
            name == chars@.subrange(start as int, end as int),
            dot matches Some(p) ==> start <= p < k,
            crate::ast::opt_index(dot) == (match last_dot(chars@.subrange(start as int, k as int)) {
                Some(p) => Some(p + start),
                None => None,
            }),
        decreases end - k,
    {
        proof {
            assert(chars@.subrange(start as int, k + 1).drop_last() =~= chars@.subrange(
                start as int,
                k as int,
            ));
        }
        if chars[k] == '.' {
            dot = Some(k);
        }
        k += 1;
    }
    let len = end - start;
    if len == 2 && chars[start] == '.' && chars[start + 1] == '.' {
        proof {
            assert(name =~= seq!['.', '.']);
        }
        return false;
    }
    proof {
        if len == 2 && name == seq!['.', '.'] {
            assert(chars[start as int] == '.');
        }
    }
    proof {
        assert(chars@.subrange(start as int, end as int) == name);
        assert(name.len() == len);
        if name == seq!['.', '.'] {
            assert(name[0] == '.' && name[1] == '.');
        }
    }
    match dot {
        Some(p) => {
            proof {
                assert(last_dot(name) == Some(p - start));
            }
            if p == start {
                return false;
            }
            let ghost ext = name.subrange(p - start + 1, name.len() as int);
            proof {
                assert(extension(file_name(path@)) == Some(ext));
            }
            if end - p != 2 {
                proof {
                    assert(ext.len() != 1);
                    assert(ext != seq!['r'] && ext != seq!['R']) by {
                        assert(seq!['r'].len() == 1 && seq!['R'].len() == 1);
                    }
                }
                return false;
            }
            let c = chars[p + 1];
            proof {
                assert(ext =~= seq![c]);
                assert(seq![c] == seq!['r'] <==> c == 'r') by {
                    if seq![c] == seq!['r'] {
                        assert(seq![c][0] == seq!['r'][0]);
                    }
                }
                assert(seq![c] == seq!['R'] <==> c == 'R') by {
                    if seq![c] == seq!['R'] {
                        assert(seq![c][0] == seq!['R'][0]);
                    }
                }
            }
            c == 'r' || c == 'R'
        },
        None => {
            proof {
                assert(last_dot(name) is None);
            }
            false
        },
    }
}

} // verus!
