//! Walk support: turning the files found under the render root into
//! templates, and the exclude patterns into override globs. The walk
//! itself is file-system work and stays outside; this module owns every
//! path computation.
use vstd::prelude::*;

use crate::matcher::{out_name_spec, rewrite_name_spec, rewrite_template_matcher};
use crate::strutil::{chars_vec, push_all, push_range, string_from_chars, trim_chars, trim_spec};

verus! {

/// The lockfile's filename, never matched as a template.
pub fn lockfile_name() -> (r: &'static str)
    ensures
        r@ == ".zetch.lock"@,
{
    ".zetch.lock"
}

/// The last `/` at or before position `i`.
pub open spec fn rslash_from(p: Seq<char>, i: int) -> Option<int>
    decreases i + 1,
{
    if i < 0 || i >= p.len() {
        None
    } else if p[i] == '/' {
        Some(i)
    } else {
        rslash_from(p, i - 1)
    }
}

/// A found slash lies in range and is a slash.
pub proof fn lemma_rslash_bounds(p: Seq<char>, i: int)
    ensures
        rslash_from(p, i) matches Some(j) ==> 0 <= j <= i && j < p.len() && p[j] == '/',
    decreases i + 1,
{
    if i >= 0 && i < p.len() && p[i] != '/' {
        lemma_rslash_bounds(p, i - 1);
    }
}

/// The part of a path after its last `/`; the whole path when it has none.
pub open spec fn file_name_of(p: Seq<char>) -> Seq<char> {
    match rslash_from(p, p.len() - 1) {
        Some(i) => p.subrange(i + 1, p.len() as int),
        None => p,
    }
}

/// The part of a path up to and including its last `/`; empty when it has
/// none.
pub open spec fn dir_prefix_of(p: Seq<char>) -> Seq<char> {
    match rslash_from(p, p.len() - 1) {
        Some(i) => p.subrange(0, i + 1),
        None => Seq::empty(),
    }
}

/// Remove leading `/` characters.
pub open spec fn drop_slashes(s: Seq<char>) -> Seq<char>
    decreases s.len(),
{
    if s.len() > 0 && s[0] == '/' {
        drop_slashes(s.drop_first())
    } else {
        s
    }
}

/// A path made relative to a root it starts with.
pub open spec fn rel_to_root(root: Seq<char>, p: Seq<char>) -> Seq<char> {
    drop_slashes(p.skip(root.len() as int))
}

/// `root` stands at the front of `p`.
pub open spec fn is_under(root: Seq<char>, p: Seq<char>) -> bool {
    p.len() >= root.len() && p.subrange(0, root.len() as int) == root
}

/// Whether a path starts with the given prefix.
pub fn starts_with_str(prefix: &str, p: &str) -> (r: bool)
    ensures
        r == is_under(prefix@, p@),
{
    let pv = chars_vec(prefix);
    let sv = chars_vec(p);
    if sv.len() < pv.len() {
        return false;
    }
    let mut i: usize = 0;
    while i < pv.len()
        invariant
            i <= pv@.len() <= sv@.len(),
            pv@ == prefix@,
            sv@ == p@,
            forall|j: int| 0 <= j < i ==> sv@[j] == pv@[j],
        decreases pv@.len() - i,
    {
        if sv[i] != pv[i] {
            proof {
                let sub = p@.subrange(0, prefix@.len() as int);
                assert(sub[i as int] == p@[i as int]);
            }
            return false;
        }
        i = i + 1;
    }
    proof {
        assert(p@.subrange(0, prefix@.len() as int) =~= prefix@);
    }
    true
}

/// A matched template file: its path, its path relative to the render
/// root (the template engine's logical identifier), and its computed
/// output path.
pub struct Template {
    pub path: String,
    pub rel_path: String,
    pub out_path: String,
}

impl Template {
    /// Build a template whose relative path is the path with the root
    /// and any following slashes removed.
    pub fn new(root: &str, path: String, out_path: String) -> (r: Template)
        requires
            is_under(root@, path@),
        ensures
            r.path@ == path@,
            r.out_path@ == out_path@,
            r.rel_path@ == rel_to_root(root@, path@),
    {
        let pv = chars_vec(path.as_str());
        let rv = chars_vec(root);
        let n = pv.len();
        let mut i: usize = rv.len();
        while i < n && pv[i] == '/'
            invariant
                rv@.len() <= i <= n,
                n == pv@.len(),
                drop_slashes(pv@.skip(rv@.len() as int)) == drop_slashes(pv@.skip(i as int)),
            decreases n - i,
        {
            proof {
                assert(pv@.skip(i as int).drop_first() =~= pv@.skip(i + 1));
            }
            i = i + 1;
        }
        proof {
            if i < n {
                assert(drop_slashes(pv@.skip(i as int)) == pv@.skip(i as int));
            } else {
                assert(pv@.skip(i as int) =~= Seq::<char>::empty());
            }
        }
        let mut relv: Vec<char> = Vec::new();
        push_range(&mut relv, &pv, i, n);
        proof {
            assert(relv@ =~= pv@.skip(i as int));
        }
        let rel_path = string_from_chars(&relv);
        Template { path, rel_path, out_path }
    }
}

/// The first declared matcher that recognises the filename wins; its
/// rewritten output name is the result.
pub open spec fn first_match(name: Seq<char>, matchers: Seq<Seq<char>>, i: int) -> Option<
    Seq<char>,
>
    decreases matchers.len() - i,
    when 0 <= i <= matchers.len()
{
    if i >= matchers.len() {
        None
    } else {
        match out_name_spec(name, matchers[i]) {
            Some(o) => Some(o),
            None => first_match(name, matchers, i + 1),
        }
    }
}

/// The views of a list of strings.
pub open spec fn strs_view(v: Seq<String>) -> Seq<Seq<char>> {
    v.map_values(|s: String| s@)
}

/// What one walked file contributes: `None` when no matcher recognises
/// its name, else the template's path, relative path and output path.
pub open spec fn template_model(root: Seq<char>, path: Seq<char>, matchers: Seq<Seq<char>>) -> Option<
    (Seq<char>, Seq<char>, Seq<char>),
> {
    match first_match(file_name_of(path), matchers, 0) {
        Some(o) => Some((path, rel_to_root(root, path), dir_prefix_of(path) + o)),
        None => None,
    }
}

/// Split a path at its last slash: the directory prefix (slash kept) and
/// the filename.
pub fn split_path(pv: &Vec<char>) -> (r: (Vec<char>, Vec<char>))
    ensures
        r.0@ == dir_prefix_of(pv@),
        r.1@ == file_name_of(pv@),
{
    let n = pv.len();
    let mut i: usize = n;
    loop
        invariant
            i <= n,
            n == pv@.len(),
            rslash_from(pv@, n - 1) == rslash_from(pv@, i - 1),
        ensures
            i <= n,
            n == pv@.len(),
            rslash_from(pv@, n - 1) == rslash_from(pv@, i - 1),
            i == 0 || pv@[i - 1] == '/',
        decreases i,
    {
        if i == 0 {
            break ;
        }
        if pv[i - 1] == '/' {
            break ;
        }
        i = i - 1;
    }
    proof {
        if i == 0 {
            assert(rslash_from(pv@, -1) is None);
        } else {
            assert(rslash_from(pv@, i - 1) == Some(i - 1));
        }
    }
    let mut dir: Vec<char> = Vec::new();
    push_range(&mut dir, pv, 0, i);
    let mut name: Vec<char> = Vec::new();
    push_range(&mut name, pv, i, n);
    proof {
        if i == 0 {
            assert(dir@ =~= Seq::<char>::empty());
            assert(name@ =~= pv@);
        } else {
            assert(dir@ =~= pv@.subrange(0, (i - 1) + 1));
            assert(name@ =~= pv@.subrange((i - 1) + 1, pv@.len() as int));
        }
    }
    (dir, name)
}

/// Match one walked file against the declared matchers, in declared
/// order; a file matches at most once.
pub fn match_template(root: &str, path: &str, matchers: &Vec<String>) -> (r: Option<Template>)
    requires
        is_under(root@, path@),
    ensures
        match template_model(root@, path@, strs_view(matchers@)) {
            Some(t) => r matches Some(x) && x.path@ == t.0 && x.rel_path@ == t.1 && x.out_path@
                == t.2,
            None => r is None,
        },
{
    let pv = chars_vec(path);
    let (dir, name) = split_path(&pv);
    let name_str = string_from_chars(&name);
    let ghost ms = strs_view(matchers@);
    let mut idx: usize = 0;
    while idx < matchers.len()
        invariant
            idx <= matchers@.len(),
            ms == strs_view(matchers@),
            ms.len() == matchers@.len(),
            name_str@ == file_name_of(path@),
            dir@ == dir_prefix_of(path@),
            pv@ == path@,
            is_under(root@, path@),
            first_match(name_str@, ms, 0) == first_match(name_str@, ms, idx as int),
        decreases matchers@.len() - idx,
    {
        proof {
            assert(ms[idx as int] == matchers@[idx as int]@);
        }
        match crate::matcher::match_and_rewrite(name_str.as_str(), matchers[idx].as_str()) {
            Some(out_name) => {
                let ov = chars_vec(out_name.as_str());
                let mut outp: Vec<char> = Vec::new();
                push_all(&mut outp, &dir);
                push_all(&mut outp, &ov);
                let out_path = string_from_chars(&outp);
                let path_string = string_from_chars(&pv);
                let t = Template::new(root, path_string, out_path);
                proof {
                    assert(first_match(name_str@, ms, idx as int) == Some(out_name@));
                }
                return Some(t);
            },
            None => {
                idx = idx + 1;
            },
        }
    }
    None
}

/// The views of a list of templates.
pub open spec fn template_views(ts: Seq<Template>) -> Seq<(Seq<char>, Seq<char>, Seq<char>)> {
    ts.map_values(|t: Template| (t.path@, t.rel_path@, t.out_path@))
}

/// The templates that a list of walked files contributes, in walk order.
pub open spec fn collect_templates(
    root: Seq<char>,
    files: Seq<Seq<char>>,
    matchers: Seq<Seq<char>>,
) -> Seq<(Seq<char>, Seq<char>, Seq<char>)>
    decreases files.len(),
{
    if files.len() == 0 {
        Seq::empty()
    } else {
        let pre = collect_templates(root, files.drop_last(), matchers);
        match template_model(root, files.last(), matchers) {
            Some(t) => pre.push(t),
            None => pre,
        }
    }
}

/// Identify the templates among the walked files, first matching token
/// winning for each file.
pub fn find_templates(root: &str, files: &Vec<String>, matchers: &Vec<String>) -> (r: Vec<
    Template,
>)
    requires
        forall|i: int| 0 <= i < files@.len() ==> is_under(root@, #[trigger] files@[i]@),
    ensures
        template_views(r@) == collect_templates(root@, strs_view(files@), strs_view(matchers@)),
{
    let ghost fs = strs_view(files@);
    let mut out: Vec<Template> = Vec::new();
    let mut i: usize = 0;
    while i < files.len()
        invariant
            i <= files@.len(),
            fs == strs_view(files@),
            fs.len() == files@.len(),
            forall|j: int| 0 <= j < files@.len() ==> is_under(root@, #[trigger] files@[j]@),
            template_views(out@) == collect_templates(
                root@,
                fs.subrange(0, i as int),
                strs_view(matchers@),
            ),
        decreases files@.len() - i,
    {
        let ghost pre = fs.subrange(0, i as int);
        proof {
            assert(fs[i as int] == files@[i as int]@);
        }
        match match_template(root, files[i].as_str(), matchers) {
            Some(t) => {
                out.push(t);
            },
            None => {},
        }
        i = i + 1;
        proof {
            let cur = fs.subrange(0, i as int);
            assert(cur.drop_last() =~= pre);
            assert(cur.last() == fs[i - 1]);
            assert(template_views(out@) =~= collect_templates(
                root@,
                cur,
                strs_view(matchers@),
            ));
        }
    }
    proof {
        assert(fs.subrange(0, fs.len() as int) =~= fs);
    }
    out
}

/// What the matcher-rename command does to one walked file: templates
/// matched by the old token map to their path with the token replaced in
/// the filename.
pub open spec fn rewrite_mapping_model(
    root: Seq<char>,
    files: Seq<Seq<char>>,
    oldt: Seq<char>,
    newt: Seq<char>,
) -> Seq<(Seq<char>, Seq<char>)>
    decreases files.len(),
{
    if files.len() == 0 {
        Seq::empty()
    } else {
        let pre = rewrite_mapping_model(root, files.drop_last(), oldt, newt);
        let f = files.last();
        if out_name_spec(file_name_of(f), oldt) is Some {
            pre.push((f, dir_prefix_of(f) + rewrite_name_spec(file_name_of(f), oldt, newt)))
        } else {
            pre
        }
    }
}

/// For every file the old token matches, the old path paired with the
/// path under the new token.
pub fn get_template_matcher_rewrite_mapping(
    root: &str,
    files: &Vec<String>,
    old_matcher: &str,
    new_matcher: &str,
) -> (r: Vec<(String, String)>)
    requires
        forall|i: int| 0 <= i < files@.len() ==> is_under(root@, #[trigger] files@[i]@),
    ensures
        r@.map_values(|p: (String, String)| (p.0@, p.1@)) == rewrite_mapping_model(
            root@,
            strs_view(files@),
            old_matcher@,
            new_matcher@,
        ),
{
    let ghost fs = strs_view(files@);
    let mut out: Vec<(String, String)> = Vec::new();
    let mut i: usize = 0;
    while i < files.len()
        invariant
            i <= files@.len(),
            fs == strs_view(files@),
            fs.len() == files@.len(),
            out@.map_values(|p: (String, String)| (p.0@, p.1@)) == rewrite_mapping_model(
                root@,
                fs.subrange(0, i as int),
                old_matcher@,
                new_matcher@,
            ),
        decreases files@.len() - i,
    {
        let ghost pre = fs.subrange(0, i as int);
        proof {
            assert(fs[i as int] == files@[i as int]@);
        }
        let pv = chars_vec(files[i].as_str());
        let (dir, name) = split_path(&pv);
        let name_str = string_from_chars(&name);
        match crate::matcher::match_and_rewrite(name_str.as_str(), old_matcher) {
            Some(_) => {
                let renamed = rewrite_template_matcher(name_str.as_str(), old_matcher, new_matcher);
                let rv = chars_vec(renamed.as_str());
                let mut np: Vec<char> = Vec::new();
                push_all(&mut np, &dir);
                push_all(&mut np, &rv);
                let new_path = string_from_chars(&np);
                let old_path = string_from_chars(&pv);
                out.push((old_path, new_path));
            },
            None => {},
        }
        i = i + 1;
        proof {
            let cur = fs.subrange(0, i as int);
            assert(cur.drop_last() =~= pre);
            assert(cur.last() == fs[i - 1]);
            assert(out@.map_values(|p: (String, String)| (p.0@, p.1@)) =~= rewrite_mapping_model(
                root@,
                cur,
                old_matcher@,
                new_matcher@,
            ));
        }
    }
    proof {
        assert(fs.subrange(0, fs.len() as int) =~= fs);
    }
    out
}

/// If the config lies under the root, its path relative to the root;
/// `None` otherwise. Both paths are expected in comparable (absolute)
/// form.
pub fn config_path_relative_to_root(root: &str, config: &str) -> (r: Option<String>)
    ensures
        is_under(root@, config@) ==> (r matches Some(x) && x@ == rel_to_root(root@, config@)),
        !is_under(root@, config@) ==> r is None,
{
    if starts_with_str(root, config) {
        let cfg_string = crate::strutil::string_from_chars(&chars_vec(config));
        let t = Template::new(root, cfg_string, String::new());
        Some(t.rel_path)
    } else {
        None
    }
}

/// The walker excludes as override globs: a match whitelists, so each
/// exclude pattern is inverted by toggling a leading `!` on its trimmed
/// text.
pub open spec fn invert_glob(e: Seq<char>) -> Seq<char> {
    let t = trim_spec(e);
    if t.len() > 0 && t[0] == '!' {
        t.skip(1)
    } else {
        seq!['!'] + t
    }
}

fn invert_glob_exec(e: &str) -> (r: String)
    ensures
        r@ == invert_glob(e@),
{
    let ev = chars_vec(e);
    let t = trim_chars(&ev);
    if t.len() > 0 && t[0] == '!' {
        let mut out: Vec<char> = Vec::new();
        let n = t.len();
        push_range(&mut out, &t, 1, n);
        proof {
            assert(out@ =~= t@.skip(1));
        }
        string_from_chars(&out)
    } else {
        let mut out: Vec<char> = Vec::new();
        out.push('!');
        push_all(&mut out, &t);
        proof {
            assert(out@ =~= seq!['!'] + t@);
        }
        string_from_chars(&out)
    }
}

/// The override globs a render walk uses: never match the lockfile, never
/// match the config when it lies under the root, and apply each
/// configured exclude, all inverted for the overrider's whitelist sense.
pub open spec fn override_globs_model(
    lock: Seq<char>,
    rel_config: Option<Seq<char>>,
    excludes: Seq<Seq<char>>,
) -> Seq<Seq<char>> {
    let base = seq![invert_glob(lock)] + (match rel_config {
        Some(c) => seq![invert_glob(c)],
        None => Seq::<Seq<char>>::empty(),
    });
    base + excludes.map_values(|e: Seq<char>| invert_glob(e))
}

/// Build the override globs for a walk.
#[verifier::loop_isolation(false)]
pub fn build_override_globs(rel_config: &Option<String>, excludes: &Vec<String>) -> (r: Vec<
    String,
>)
    ensures
        strs_view(r@) == override_globs_model(
            ".zetch.lock"@,
            match rel_config {
                Some(c) => Some(c@),
                None => None,
            },
            strs_view(excludes@).map_values(|e: Seq<char>| e),
        ),
{
    let mut out: Vec<String> = Vec::new();
    out.push(invert_glob_exec(lockfile_name()));
    match rel_config {
        Some(c) => {
            out.push(invert_glob_exec(c.as_str()));
        },
        None => {},
    }
    let ghost base = out@;
    let mut i: usize = 0;
    while i < excludes.len()
        invariant
            i <= excludes@.len(),
            out@.len() == base.len() + i,
            out@.subrange(0, base.len() as int) == base,
            forall|j: int| 0 <= j < i ==> out@[base.len() + j]@ == invert_glob(excludes@[j]@),
        decreases excludes@.len() - i,
    {
        let g = invert_glob_exec(excludes[i].as_str());
        out.push(g);
        i = i + 1;
        proof {
            assert(out@.subrange(0, base.len() as int) =~= base);
        }
    }
    proof {
        let lhs = strs_view(out@);
        let rhs = override_globs_model(
            ".zetch.lock"@,
            match rel_config {
                Some(c) => Some(c@),
                None => None,
            },
            strs_view(excludes@).map_values(|e: Seq<char>| e),
        );
        assert(strs_view(excludes@).map_values(|e: Seq<char>| e) =~= strs_view(excludes@));
        assert(lhs.len() == rhs.len());
        assert forall|j: int| 0 <= j < lhs.len() implies lhs[j] == rhs[j] by {
            assert(lhs[j] == out@[j]@);
            if j < base.len() {
                assert(out@.subrange(0, base.len() as int)[j] == out@[j]);
                assert(out@[j] == base[j]);
            } else {
                assert(out@[j]@ == invert_glob(excludes@[j - base.len()]@));
            }
        }
        assert(lhs =~= rhs);
    }
    out
}

} // verus!
