//! Paths of files as text: the directory a file is in, and its name with another extension.
//!
//! What separates the components of a path depends on the platform: a slash does on each of them,
//! a backslash or a colon on some. The functions here are stated exactly for the paths that every
//! platform takes apart in the same way, and for the others as far as the platforms agree.

use vstd::prelude::*;

verus! {

/// The place of the last `c` in `s`, or -1 where there is none.
pub open spec fn last_place(s: Seq<char>, c: char) -> int
    decreases s.len(),
{
    if s.len() == 0 {
        -1
    } else if s.last() == c {
        s.len() - 1
    } else {
        last_place(s.drop_last(), c)
    }
}

/// Whether a component of a path may end before `c` on some platform.
pub open spec fn is_separator(c: char) -> bool {
    c == '/' || c == '\\' || c == ':'
}

/// The place of the last separator of any platform in `s`, or -1 where there is none.
pub open spec fn last_separator(s: Seq<char>) -> int
    decreases s.len(),
{
    if s.len() == 0 {
        -1
    } else if is_separator(s.last()) {
        s.len() - 1
    } else {
        last_separator(s.drop_last())
    }
}

/// Whether `path` begins with two separators, which on some platforms begins the name of a host.
pub open spec fn begins_with_a_host(path: Seq<char>) -> bool {
    path.len() > 1 && is_separator(path[0]) && is_separator(path[1])
}

/// Whether `path` ends with the name of a file on every platform, as far as its last character
/// tells.
pub open spec fn ends_with_a_name(path: Seq<char>) -> bool {
    &&& path.len() > 0
    &&& !is_separator(path.last())
    &&& path.last() != '.'
    &&& !begins_with_a_host(path)
}

/// The text of `path` behind its last slash.
pub open spec fn file_name(path: Seq<char>) -> Seq<char> {
    path.skip(last_place(path, '/') + 1)
}

/// Whether `path` is written plainly: single slashes separate its components, none of these but
/// the first is a lone dot, neither a backslash nor a colon is in it, and it ends with a file name
/// that is neither a lone dot nor begins with two dots without holding another.
pub open spec fn is_plain_path(path: Seq<char>) -> bool {
    &&& forall|i: int|
        0 <= i < path.len() ==> #[trigger] path[i] != '\\' && path[i] != ':'
    &&& forall|i: int|
        0 < i < path.len() && #[trigger] path[i] == '/' ==> path[i - 1] != '/'
    &&& forall|i: int|
        0 < i < path.len() - 1 && #[trigger] path[i] == '.' && path[i - 1] == '/' ==> path[i + 1]
            != '/'
    &&& file_name(path).len() > 0
    &&& file_name(path) != "."@
    &&& !(last_place(file_name(path), '.') == 1 && file_name(path)[0] == '.')
}

/// Whether all platforms agree on the extension of the file at `path`: the path ends with a file
/// name behind the last separator of any of them, and either the last dot is inside that name, or
/// no dot is behind the last slash but perhaps one right behind it. The name is neither a lone dot
/// nor begins with two dots without holding another.
pub open spec fn has_clear_extension(path: Seq<char>) -> bool {
    let separator = last_separator(path);
    let dot = last_place(path, '.');
    &&& separator + 1 < path.len()
    &&& !begins_with_a_host(path)
    &&& !(dot == separator + 1 && dot == path.len() - 1)
    &&& {
        ||| dot <= last_place(path, '/') + 1
        ||| dot > separator + 1 && !(dot == separator + 2 && path[separator + 1] == '.')
    }
}

/// Whether `path` names a file on every platform.
pub open spec fn names_a_file(path: Seq<char>) -> bool {
    ends_with_a_name(path) || has_clear_extension(path)
}

/// The directory that the file at a plain path is in.
pub open spec fn directory_of(path: Seq<char>) -> Seq<char> {
    let slash = last_place(path, '/');
    if slash > 0 {
        path.take(slash)
    } else {
        path.take(slash + 1)
    }
}

/// A path with a clear extension up to the dot of that extension. A file name that begins with its
/// only dot has no extension.
pub open spec fn without_extension(path: Seq<char>) -> Seq<char> {
    let dot = last_place(path, '.');
    if dot > last_separator(path) + 1 {
        path.take(dot)
    } else {
        path
    }
}

/// Whether slashes alone separate the components of `path` on every platform, and it ends with one
/// that is no lone dot.
pub open spec fn has_slashes_only(path: Seq<char>) -> bool {
    &&& forall|i: int|
        0 <= i < path.len() ==> #[trigger] path[i] != '\\' && path[i] != ':'
    &&& !begins_with_a_host(path)
    &&& file_name(path).len() > 0
    &&& file_name(path) != "."@
}

/// Whether nothing but slashes, and lone dots between them, is between the end of `directory`,
/// which is a beginning of `path`, and the name of the file.
pub open spec fn ends_before_the_name(path: Seq<char>, directory: Seq<char>) -> bool {
    let end = last_place(path, '/') + 1;
    &&& directory.len() <= end
    &&& directory.len() == end || path[directory.len() as int] == '/' || directory == "/"@
    &&& forall|i: int|
        directory.len() <= i < end ==> {
            ||| #[trigger] path[i] == '/'
            ||| path[i] == '.' && path[i + 1] == '/'
        }
}

/// `Path::parent` gives the path without its final component: of a plain path the directory, which
/// is empty for a bare file name, and of any path a proper beginning of its text. Separators that
/// are repeated and lone dots count for nothing: where slashes alone separate the components,
/// nothing else is between this beginning and the final component. It gives nothing for an empty
/// path and for one that ends in a root or a prefix, so for none that names a file. Where the
/// beginning of a path ends beyond that depends on the platform and is left open.
#[verifier::external_body]
pub(crate) fn parent(path: &str) -> (result: Option<String>)
    ensures
        match result {
            Some(directory) => {
                &&& is_plain_path(path@) ==> directory@ == directory_of(path@)
                &&& has_slashes_only(path@) ==> ends_before_the_name(path@, directory@)
                &&& directory@.is_prefix_of(path@)
                &&& directory@.len() < path@.len()
            },
            None => !is_plain_path(path@) && !names_a_file(path@),
        },
{
    std::path::Path::new(path).parent().map(|directory| directory.display().to_string())
}

/// Whether `result` is some beginning of `path`, by itself or with a dot and `extension` behind it.
pub open spec fn has_new_extension(
    path: Seq<char>,
    extension: Seq<char>,
    result: Seq<char>,
) -> bool {
    ||| result.is_prefix_of(path)
    ||| exists|stem: Seq<char>| #[trigger]
        stem.is_prefix_of(path) && result == stem + "."@ + extension
}

/// Whether `result` is `path` with `extension` behind it or behind what stands before its last dot,
/// as whatever the platform takes for the extension gives it. Where two dots meet there, what is
/// left may be no file name, which then gets no extension.
pub open spec fn keeps_the_name(
    path: Seq<char>,
    extension: Seq<char>,
    result: Seq<char>,
) -> bool {
    let dot = last_place(path, '.');
    ||| result == path + "."@ + extension
    ||| dot > 0 && result == path.take(dot) + "."@ + extension
    ||| dot > 0 && path[dot - 1] == '.' && result == path.take(dot + 1)
}

/// `Path::with_extension` keeps a path up to its extension, if it has one, and appends a dot and
/// the new extension; only a path without a file name gets no extension. So it never gives back a
/// path that ends with a name, if the new extension holds a dot: an extension that was there holds
/// none. The new extension must not be empty, which would append no dot, nor hold a separator.
/// Whether a path whose extension is not clear has one depends on the platform and is left open.
#[verifier::external_body]
pub(crate) fn with_extension(path: &str, extension: &str) -> (result: String)
    requires
        extension@.len() > 0,
        forall|i: int|
            0 <= i < extension@.len() ==> #[trigger] extension@[i] != '/' && extension@[i] != '\\',
    ensures
        has_clear_extension(path@) ==> result@ == without_extension(path@) + "."@ + extension@,
        ends_with_a_name(path@) ==> keeps_the_name(path@, extension@, result@),
        ends_with_a_name(path@) && extension@.contains('.') ==> result@ != path@,
        has_new_extension(path@, extension@, result@),
{
    std::path::Path::new(path).with_extension(extension).display().to_string()
}

/// The last place of a character is where it is, and it is nowhere behind that.
pub proof fn last_place_is_last(s: Seq<char>, c: char)
    ensures
        -1 <= last_place(s, c) < s.len(),
        last_place(s, c) >= 0 ==> s[last_place(s, c)] == c,
        forall|i: int| last_place(s, c) < i < s.len() ==> #[trigger] s[i] != c,
    decreases s.len(),
{
    if s.len() > 0 && s.last() != c {
        last_place_is_last(s.drop_last(), c);
        assert forall|i: int| last_place(s, c) < i < s.len() implies #[trigger] s[i] != c by {
            if i < s.len() - 1 {
                assert(s.drop_last()[i] == s[i]);
            }
        }
    }
}

/// The last separator is where it is, there is none behind it, and no slash is.
pub proof fn last_separator_is_last(s: Seq<char>)
    ensures
        -1 <= last_place(s, '/') <= last_separator(s) < s.len(),
        last_separator(s) >= 0 ==> is_separator(s[last_separator(s)]),
        forall|i: int| last_separator(s) < i < s.len() ==> !is_separator(#[trigger] s[i]),
    decreases s.len(),
{
    if s.len() > 0 && !is_separator(s.last()) {
        last_separator_is_last(s.drop_last());
        assert forall|i: int| last_separator(s) < i < s.len() implies !is_separator(
            #[trigger] s[i],
        ) by {
            if i < s.len() - 1 {
                assert(s.drop_last()[i] == s[i]);
            }
        }
    } else {
        last_place_is_last(s, '/');
    }
}

/// The extension of a plain path is clear.
pub proof fn a_plain_path_has_a_clear_extension(path: Seq<char>)
    requires
        is_plain_path(path),
    ensures
        has_clear_extension(path),
{
    let slash = last_place(path, '/');
    let name = file_name(path);
    reveal_strlit(".");
    last_place_is_last(path, '/');
    last_place_is_last(path, '.');
    last_place_is_last(name, '.');
    last_separator_is_last(path);
    assert(last_separator(path) == slash) by {
        if last_separator(path) > slash {
            assert(path[last_separator(path)] == '/');
        }
    }
    let dot = last_place(path, '.');
    if begins_with_a_host(path) {
        assert(path[0] == '/' && path[1] == '/');
    }
    if dot == slash + 1 && dot == path.len() - 1 {
        assert(name =~= "."@);
    }
    if dot == slash + 2 && path[slash + 1] == '.' {
        assert(name[0] == path[slash + 1] && name[1] == path[dot]);
        assert forall|i: int| 1 < i < name.len() implies #[trigger] name[i] != '.' by {
            assert(name[i] == path[slash + 1 + i]);
        }
    }
}

/// Giving a file another extension, in which there is no slash, leaves it in its directory.
pub proof fn a_new_extension_keeps_the_directory(path: Seq<char>, extension: Seq<char>)
    requires
        forall|i: int| 0 <= i < extension.len() ==> #[trigger] extension[i] != '/',
    ensures
        directory_of(without_extension(path) + "."@ + extension) == directory_of(path),
{
    reveal_strlit(".");
    let stem = without_extension(path);
    let result = stem + "."@ + extension;
    let slash = last_place(path, '/');
    last_place_is_last(path, '/');
    last_place_is_last(path, '.');
    last_separator_is_last(path);
    last_place_is_last(result, '/');
    assert(slash < stem.len());
    assert forall|i: int| slash < i < result.len() implies #[trigger] result[i] != '/' by {
        if i < stem.len() {
            assert(stem[i] == path[i]);
        } else if i > stem.len() {
            assert(result[i] == extension[i - stem.len() - 1]);
        }
    }
    if slash >= 0 {
        assert(result[slash] == path[slash]);
    }
    assert(last_place(result, '/') == slash);
    assert(result.take(slash + 1) =~= path.take(slash + 1));
    if slash > 0 {
        assert(result.take(slash) =~= path.take(slash));
    }
}

proof fn lemma_last_place(s: Seq<char>, c: char, place: int)
    requires
        0 <= place < s.len(),
        s[place] == c,
        forall|i: int| place < i < s.len() ==> #[trigger] s[i] != c,
    ensures
        last_place(s, c) == place,
{
    last_place_is_last(s, c);
}

/// A file is in the directory that stands before the last slash of its path; a bare name is in the
/// empty directory, and a name behind a leading slash in the root.
pub proof fn a_file_is_in_the_directory_before_it(directory: Seq<char>, name: Seq<char>)
    requires
        forall|i: int| 0 <= i < name.len() ==> #[trigger] name[i] != '/',
    ensures
        directory.len() > 0 ==> directory_of(directory + "/"@ + name) == directory,
        directory_of("/"@ + name) == "/"@,
        directory_of(name).len() == 0,
{
    reveal_strlit("/");
    let whole = directory + "/"@ + name;
    let n = directory.len() as int;
    assert forall|i: int| n < i < whole.len() implies #[trigger] whole[i] != '/' by {
        assert(whole[i] == name[i - n - 1]);
    }
    lemma_last_place(whole, '/', n);
    assert(whole.take(n) =~= directory);
    let rooted = "/"@ + name;
    assert forall|i: int| 0 < i < rooted.len() implies #[trigger] rooted[i] != '/' by {
        assert(rooted[i] == name[i - 1]);
    }
    lemma_last_place(rooted, '/', 0);
    assert(rooted.take(1) =~= "/"@);
    last_place_is_last(name, '/');
}

/// The extension of a path is what stands behind the last dot of its file name, if this is not the
/// first character of the name.
pub proof fn an_extension_stands_behind_the_last_dot(stem: Seq<char>, extension: Seq<char>)
    requires
        stem.len() > 0,
        !is_separator(stem[stem.len() - 1]),
        forall|i: int|
            0 <= i < extension.len() ==> #[trigger] extension[i] != '.' && !is_separator(
                extension[i],
            ),
    ensures
        without_extension(stem + "."@ + extension) == stem,
{
    reveal_strlit(".");
    let whole = stem + "."@ + extension;
    let n = stem.len() as int;
    assert forall|i: int| n < i < whole.len() implies #[trigger] whole[i] != '.' && !is_separator(
        whole[i],
    ) by {
        assert(whole[i] == extension[i - n - 1]);
    }
    lemma_last_place(whole, '.', n);
    last_separator_is_last(whole);
    assert(whole[n] == '.' && whole[n - 1] == stem[n - 1]);
    assert(last_separator(whole) < n - 1);
    assert(whole.take(n) =~= stem);
}

/// A path without a dot in its file name, but perhaps at its beginning, has no extension.
pub proof fn a_name_without_an_inner_dot_has_no_extension(path: Seq<char>)
    requires
        forall|i: int|
            last_separator(path) + 1 < i < path.len() ==> #[trigger] path[i] != '.',
    ensures
        without_extension(path) == path,
{
    last_place_is_last(path, '.');
    last_separator_is_last(path);
}

} // verus!
