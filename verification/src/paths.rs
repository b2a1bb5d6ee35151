use vstd::prelude::*;

verus! {

/// The separator between path components on the platforms this server targets.
pub open spec fn is_separator(c: char) -> bool {
    c == '/'
}

/// A path is absolute when it starts at the root.
pub open spec fn spec_is_absolute(p: Seq<char>) -> bool {
    p.len() > 0 && is_separator(p[0])
}

/// Appending `seg` to `base` the way `PathBuf::push` does on Unix: an absolute
/// segment replaces the base; otherwise a separator is put between the two
/// unless the base is empty or already ends with one.
pub open spec fn spec_push(base: Seq<char>, seg: Seq<char>) -> Seq<char> {
    if spec_is_absolute(seg) {
        seg
    } else if base.len() > 0 && !is_separator(base.last()) {
        base + seq!['/'] + seg
    } else {
        base + seg
    }
}

/// Appends `seg` to the path `base`, as `PathBuf::push` does on Unix.
pub fn push_path(base: &String, seg: &str) -> (res: String)
    ensures
        res@ == spec_push(base@, seg@),
{
    let seg_len = seg.unicode_len();
    if seg_len > 0 && seg.get_char(0) == '/' {
        return String::from_str(seg);
    }
    let base_str = base.as_str();
    let base_len = base_str.unicode_len();
    let mut res = base.clone();
    if base_len > 0 && base_str.get_char(base_len - 1) != '/' {
        res.append("/");
        proof {
            reveal_strlit("/");
        }
    }
    res.append(seg);
    res
}

/// The file, in the cache directory `cache_dir`, that holds the index page.
pub fn index_file_path(cache_dir: &String) -> (res: String)
    ensures
        res@ == spec_push(cache_dir@, "index.html"@),
{
    push_path(cache_dir, "index.html")
}

} // verus!
