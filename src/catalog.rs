use vstd::prelude::*;
use crate::error::LocaleError;
use crate::text::{
    chars_of, has_suffix, join_path, joined, lemma_lex_le_antisymmetric, lemma_lex_le_reflexive,
    lemma_lex_le_total, lemma_lex_le_transitive, views,
    lemma_remove_all_absent, lemma_remove_all_no_occurrence, lemma_remove_all_split, lower_of, lowercase, name_le, remove_all,
    remove_all_chars, string_of,
};

verus! {

/// One entry of a directory listing, as the host read it.
#[derive(Clone, Debug, PartialEq, Eq)]
pub struct DirEntry {
    pub name: String,
    pub is_dir: bool,
}

pub open spec fn json_suffix() -> Seq<char> {
    seq!['.', 'j', 's', 'o', 'n']
}

pub open spec fn default_suffix() -> Seq<char> {
    seq!['.', 'd', 'e', 'f', 'a', 'u', 'l', 't']
}

pub open spec fn schema_suffix() -> Seq<char> {
    seq!['.', 's', 'c', 'h', 'e', 'm', 'a']
}

/// A listing entry is a locale file when it is not a directory and its name
/// ends in `.json` (case-sensitive).
pub open spec fn is_locale_entry(e: DirEntry) -> bool {
    !e.is_dir && json_suffix().is_suffix_of(e.name@)
}

/// The names of the locale files among `es`, in listing order.
pub open spec fn locale_names(es: Seq<DirEntry>) -> Seq<String>
    decreases es.len(),
{
    if es.len() == 0 {
        Seq::empty()
    } else {
        let rest = locale_names(es.drop_last());
        if is_locale_entry(es.last()) {
            rest.push(es.last().name)
        } else {
            rest
        }
    }
}

/// Strictly ascending in the order of `str`, so without repetitions.
pub open spec fn sorted_names(s: Seq<String>) -> bool {
    forall|i: int, j: int|
        0 <= i < j < s.len() ==> crate::text::lex_le(s[i]@, s[j]@) && s[i]@ != s[j]@
}

/// A file name with `.json`, `.default` and `.schema` removed, in that order,
/// wherever they occur.
pub open spec fn stripped(name: Seq<char>) -> Seq<char> {
    remove_all(remove_all(remove_all(name, json_suffix()), default_suffix()), schema_suffix())
}

/// The language identifier of a locale file name.
pub open spec fn language_of(name: Seq<char>) -> Seq<char> {
    lower_of(stripped(name))
}

proof fn lemma_insert_to_set(s: Seq<Seq<char>>, pos: int, e: Seq<char>)
    requires
        0 <= pos <= s.len(),
    ensures
        s.insert(pos, e).to_set() =~= s.to_set().insert(e),
{
    let t = s.insert(pos, e);
    s.insert_ensures(pos, e);
    assert forall|y: Seq<char>| t.contains(y) <==> (s.contains(y) || y == e) by {
        if t.contains(y) {
            let k = choose|k: int| 0 <= k < t.len() && t[k] == y;
            if k > pos {
                assert(s[k - 1] == y);
            } else if k < pos {
                assert(s[k] == y);
            }
        }
        if s.contains(y) {
            let k = choose|k: int| 0 <= k < s.len() && s[k] == y;
            if k < pos {
                assert(t[k] == y);
            } else {
                assert(t[k + 1] == y);
            }
        }
        if y == e {
            assert(t[pos] == y);
        }
    }
}

proof fn lemma_sorted_insert(old: Seq<String>, pos: int, x: String)
    requires
        sorted_names(old),
        0 <= pos <= old.len(),
        forall|k: int| 0 <= k < pos ==> crate::text::lex_le(#[trigger] old[k]@, x@),
        pos > 0 ==> !crate::text::lex_le(x@, old[pos - 1]@),
        pos < old.len() ==> !crate::text::lex_le(old[pos]@, x@),
    ensures
        sorted_names(old.insert(pos, x)),
{
    let out = old.insert(pos, x);
    old.insert_ensures(pos, x);
    lemma_lex_le_reflexive(x@);
    if pos < old.len() {
        lemma_lex_le_total(old[pos]@, x@);
    }
    assert forall|a: int, b: int| 0 <= a < b < out.len() implies crate::text::lex_le(
        out[a]@,
        out[b]@,
    ) && out[a]@ != out[b]@ by {
        if b < pos {
            assert(out[a] == old[a] && out[b] == old[b]);
        } else if b == pos {
            assert(out[a] == old[a]);
            assert(out[b] == x);
            if a < pos - 1 {
                assert(crate::text::lex_le(old[a]@, old[pos - 1]@));
            }
        } else if a < pos {
            assert(out[a] == old[a] && out[b] == old[b - 1]);
        } else if a == pos {
            assert(out[a] == x);
            assert(out[b] == old[b - 1]);
            if b - 1 > pos {
                assert(crate::text::lex_le(old[pos]@, old[b - 1]@));
                lemma_lex_le_transitive(x@, old[pos]@, old[b - 1]@);
            }
        } else {
            assert(out[a] == old[a - 1] && out[b] == old[b - 1]);
        }
    }
}

/// Sorts names strictly ascending in the order of `str`, keeping one of
/// each group of equal names.
pub fn sort_names(v: Vec<String>) -> (r: Vec<String>)
    ensures
        sorted_names(r@),
        views(r@).to_set() =~= views(v@).to_set(),
{
    let mut out: Vec<String> = Vec::new();
    let mut i: usize = 0;
    assert(views(v@.take(0)) =~= Seq::<Seq<char>>::empty());
    assert(views(out@) =~= Seq::<Seq<char>>::empty());
    while i < v.len()
        invariant
            i <= v.len(),
            sorted_names(out@),
            views(out@).to_set() =~= views(v@.take(i as int)).to_set(),
        decreases v.len() - i,
    {
        let x = v[i].clone();
        let mut pos: usize = 0;
        while pos < out.len() && name_le(out[pos].as_str(), x.as_str())
            invariant
                pos <= out.len(),
                forall|k: int| 0 <= k < pos ==> crate::text::lex_le(out@[k]@, x@),
            decreases out.len() - pos,
        {
            pos = pos + 1;
        }
        let ghost old_out = out@;
        proof {
            assert(views(v@.take(i + 1)) =~= views(v@.take(i as int)).push(x@));
            views(v@.take(i as int)).lemma_push_to_set_commute(x@);
        }
        if pos > 0 && name_le(x.as_str(), out[pos - 1].as_str()) {
            proof {
                lemma_lex_le_antisymmetric(x@, old_out[pos - 1]@);
                assert(views(old_out)[pos - 1] == x@);
                assert(views(old_out).contains(x@));
                assert(views(old_out).to_set().insert(x@) =~= views(old_out).to_set());
            }
        } else {
            proof {
                if pos < out.len() {
                    lemma_lex_le_total(old_out[pos as int]@, x@);
                    lemma_lex_le_reflexive(x@);
                }
                if pos > 0 {
                    lemma_lex_le_reflexive(x@);
                }
                assert(views(old_out.insert(pos as int, x)) =~= views(old_out).insert(
                    pos as int,
                    x@,
                ));
                lemma_insert_to_set(views(old_out), pos as int, x@);
            }
            proof {
                lemma_sorted_insert(old_out, pos as int, x);
            }
            out.insert(pos, x);
        }
        i = i + 1;
    }
    assert(v@.take(i as int) =~= v@);
    out
}

/// The names of the locale files in a listing, strictly ascending.
pub fn select_locale_files(entries: &Vec<DirEntry>) -> (r: Vec<String>)
    ensures
        sorted_names(r@),
        views(r@).to_set() =~= views(locale_names(entries@)).to_set(),
{
    let mut names: Vec<String> = Vec::new();
    let mut i: usize = 0;
    proof {
        reveal_strlit(".json");
    }
    assert(entries@.take(0) =~= Seq::<DirEntry>::empty());
    while i < entries.len()
        invariant
            i <= entries.len(),
            names@ == locale_names(entries@.take(i as int)),
            ".json"@ == json_suffix(),
        decreases entries.len() - i,
    {
        let e = &entries[i];
        assert(entries@.take(i + 1).drop_last() =~= entries@.take(i as int));
        assert(entries@.take(i + 1).last() == entries@[i as int]);
        if !e.is_dir && has_suffix(e.name.as_str(), ".json") {
            names.push(e.name.clone());
        }
        i = i + 1;
    }
    assert(entries@.take(i as int) =~= entries@);
    sort_names(names)
}

proof fn lemma_locale_names_members(es: Seq<DirEntry>, x: String)
    requires
        locale_names(es).contains(x),
    ensures
        exists|k: int| 0 <= k < es.len() && es[k].name == x && is_locale_entry(es[k]),
    decreases es.len(),
{
    let rest = locale_names(es.drop_last());
    if is_locale_entry(es.last()) && x == es.last().name {
        assert(es[es.len() - 1].name == x);
    } else {
        if is_locale_entry(es.last()) {
            let j = choose|j: int| 0 <= j < rest.push(es.last().name).len() && rest.push(es.last().name)[j] == x;
            assert(rest[j] == x);
        }
        assert(rest.contains(x));
        lemma_locale_names_members(es.drop_last(), x);
        let k = choose|k: int| 0 <= k < es.drop_last().len() && es.drop_last()[k].name == x
            && is_locale_entry(es.drop_last()[k]);
        assert(es[k] == es.drop_last()[k]);
    }
}

proof fn lemma_locale_names_complete(es: Seq<DirEntry>, k: int)
    requires
        0 <= k < es.len(),
        is_locale_entry(es[k]),
    ensures
        locale_names(es).contains(es[k].name),
    decreases es.len(),
{
    let rest = locale_names(es.drop_last());
    if k == es.len() - 1 {
        assert(rest.push(es.last().name)[rest.len() as int] == es[k].name);
    } else {
        assert(es.drop_last()[k] == es[k]);
        lemma_locale_names_complete(es.drop_last(), k);
        let m = choose|m: int| 0 <= m < rest.len() && rest[m] == es[k].name;
        if is_locale_entry(es.last()) {
            assert(rest.push(es.last().name)[m] == es[k].name);
        }
    }
}

/// Each name is that of an entry of `es` that is no directory and ends in
/// `.json`, and the name of each such entry is among them.
pub open spec fn names_match_listing(es: Seq<DirEntry>, names: Seq<String>) -> bool {
    &&& forall|k: int|
        0 <= k < names.len() ==> json_suffix().is_suffix_of(#[trigger] names[k]@) && exists|j: int|
            0 <= j < es.len() && !es[j].is_dir && es[j].name@ == names[k]@
    &&& forall|j: int|
        0 <= j < es.len() && is_locale_entry(#[trigger] es[j]) ==> views(names).contains(
            es[j].name@,
        )
}

proof fn lemma_listing_facts(es: Seq<DirEntry>, names: Seq<String>)
    requires
        views(names).to_set() =~= views(locale_names(es)).to_set(),
    ensures
        names_match_listing(es, names),
{
    let ln = locale_names(es);
    assert forall|k: int| 0 <= k < names.len() implies json_suffix().is_suffix_of(
        #[trigger] names[k]@,
    ) && exists|j: int| 0 <= j < es.len() && !es[j].is_dir && es[j].name@ == names[k]@ by {
        assert(views(names)[k] == names[k]@);
        assert(views(names).to_set().contains(names[k]@));
        assert(views(ln).contains(names[k]@));
        let m = choose|m: int| 0 <= m < views(ln).len() && views(ln)[m] == names[k]@;
        assert(ln.contains(ln[m]));
        lemma_locale_names_members(es, ln[m]);
    }
    assert forall|j: int| 0 <= j < es.len() && is_locale_entry(#[trigger] es[j]) implies views(
        names,
    ).contains(es[j].name@) by {
        lemma_locale_names_complete(es, j);
        let m = choose|m: int| 0 <= m < ln.len() && ln[m] == es[j].name;
        assert(views(ln)[m] == es[j].name@);
        assert(views(ln).to_set().contains(es[j].name@));
    }
}

/// Lists the locale files of `dir` from the host's reading of it: the names
/// of the entries that are not directories and end in `.json`, strictly
/// ascending, each once. A listing that failed becomes `DirectoryUnreadable`.
pub fn list_languages(dir: &str, listing: Result<Vec<DirEntry>, String>) -> (r: Result<
    Vec<String>,
    LocaleError,
>)
    ensures
        listing is Err ==> (r matches Err(LocaleError::DirectoryUnreadable { dir: d, message: m })
            && d@ == dir@ && m@ == listing->Err_0@),
        listing is Ok ==> (r matches Ok(names) && sorted_names(names@) && views(names@).to_set()
            =~= views(locale_names(listing->Ok_0@)).to_set()),
        r matches Ok(names) ==> names_match_listing(listing->Ok_0@, names@),
{
    match listing {
        Err(message) => Err(LocaleError::DirectoryUnreadable { dir: String::from_str(dir), message }),
        Ok(entries) => {
            let names = select_locale_files(&entries);
            proof {
                lemma_listing_facts(entries@, names@);
            }
            Ok(names)
        },
    }
}

/// Removes `.json`, `.default` and `.schema` from a file name, in that
/// order, wherever they occur.
pub fn strip_suffixes(name: &str) -> (r: String)
    ensures
        r@ == stripped(name@),
{
    proof {
        reveal_strlit(".json");
        reveal_strlit(".default");
        reveal_strlit(".schema");
        assert(".json"@ =~= json_suffix());
        assert(".default"@ =~= default_suffix());
        assert(".schema"@ =~= schema_suffix());
    }
    let s = chars_of(name);
    let s = remove_all_chars(&s, &chars_of(".json"));
    let s = remove_all_chars(&s, &chars_of(".default"));
    let s = remove_all_chars(&s, &chars_of(".schema"));
    string_of(&s)
}

/// The language identifier of the file `file_name` in `dir`: the name with
/// its known suffixes stripped, lower-cased. `exists` is whether the host
/// found `dir/file_name`; where it did not, the result is `NotFound` with
/// that path.
pub fn infer_language(dir: &str, file_name: &str, exists: bool) -> (r: Result<String, LocaleError>)
    ensures
        !exists ==> (r matches Err(LocaleError::NotFound(p)) && p@ == joined(dir@, file_name@)),
        exists ==> (r matches Ok(lang) && lang@ == language_of(file_name@)),
{
    if !exists {
        return Err(LocaleError::NotFound(join_path(dir, file_name)));
    }
    let s = strip_suffixes(file_name);
    Ok(lowercase(s.as_str()))
}

proof fn lemma_remove_all_keeps(s: Seq<char>, p: Seq<char>)
    requires
        p.len() > 1,
        s.len() > 1,
        s[0] == p[0],
        s[1] != p[1],
        forall|j: int| 0 < j < s.len() ==> #[trigger] s[j] != p[0],
    ensures
        remove_all(s, p) == s,
{
    assert(!p.is_prefix_of(s)) by {
        if p.is_prefix_of(s) {
            assert(s.subrange(0, p.len() as int)[1] == s[1]);
        }
    }
    assert(!s.skip(1).contains(p[0])) by {
        if s.skip(1).contains(p[0]) {
            let j = choose|j: int| 0 <= j < s.skip(1).len() && s.skip(1)[j] == p[0];
            assert(s[j + 1] == p[0]);
        }
    }
    lemma_remove_all_absent(s.skip(1), p);
    assert(seq![s[0]] + s.skip(1) =~= s);
}

proof fn lemma_remove_all_self(p: Seq<char>)
    requires
        p.len() > 0,
    ensures
        remove_all(p, p) == Seq::<char>::empty(),
{
    assert(p.subrange(0, p.len() as int) =~= p);
    assert(p.is_prefix_of(p));
    assert(p.skip(p.len() as int) =~= Seq::<char>::empty());
    assert(remove_all(Seq::<char>::empty(), p) == Seq::<char>::empty());
}

proof fn lemma_suffix_facts()
    ensures
        forall|j: int| 0 < j < 5 ==> #[trigger] json_suffix()[j] != '.',
        forall|j: int| 0 < j < 8 ==> #[trigger] default_suffix()[j] != '.',
        forall|j: int| 0 < j < 7 ==> #[trigger] schema_suffix()[j] != '.',
        remove_all(default_suffix(), json_suffix()) == default_suffix(),
        remove_all(schema_suffix(), json_suffix()) == schema_suffix(),
        remove_all(schema_suffix(), default_suffix()) == schema_suffix(),
        remove_all(json_suffix(), default_suffix()) == json_suffix(),
        remove_all(json_suffix(), schema_suffix()) == json_suffix(),
        remove_all(default_suffix(), schema_suffix()) == default_suffix(),
        remove_all(json_suffix(), json_suffix()) == Seq::<char>::empty(),
        remove_all(default_suffix(), default_suffix()) == Seq::<char>::empty(),
        remove_all(schema_suffix(), schema_suffix()) == Seq::<char>::empty(),
{
    lemma_remove_all_keeps(default_suffix(), json_suffix());
    lemma_remove_all_keeps(schema_suffix(), json_suffix());
    lemma_remove_all_keeps(schema_suffix(), default_suffix());
    lemma_remove_all_keeps(json_suffix(), default_suffix());
    lemma_remove_all_keeps(json_suffix(), schema_suffix());
    lemma_remove_all_keeps(default_suffix(), schema_suffix());
    lemma_remove_all_self(json_suffix());
    lemma_remove_all_self(default_suffix());
    lemma_remove_all_self(schema_suffix());
}

/// One of the suffixes that stripping removes.
pub open spec fn is_known_suffix(t: Seq<char>) -> bool {
    t == json_suffix() || t == default_suffix() || t == schema_suffix()
}

/// The parts written one after the other.
pub open spec fn concat_parts(parts: Seq<Seq<char>>) -> Seq<char>
    decreases parts.len(),
{
    if parts.len() == 0 {
        Seq::empty()
    } else {
        concat_parts(parts.drop_last()) + parts.last()
    }
}

/// `parts` with every copy of `p` left out.
pub open spec fn without(parts: Seq<Seq<char>>, p: Seq<char>) -> Seq<Seq<char>>
    decreases parts.len(),
{
    if parts.len() == 0 {
        Seq::empty()
    } else {
        let rest = without(parts.drop_last(), p);
        if parts.last() == p {
            rest
        } else {
            rest.push(parts.last())
        }
    }
}

proof fn lemma_without_members(parts: Seq<Seq<char>>, p: Seq<char>)
    ensures
        forall|e: Seq<char>| #[trigger] without(parts, p).contains(e) ==> parts.contains(e) && e != p,
    decreases parts.len(),
{
    if parts.len() > 0 {
        let init = parts.drop_last();
        lemma_without_members(init, p);
        assert forall|e: Seq<char>| #[trigger] without(parts, p).contains(e) implies parts.contains(e)
            && e != p by {
            let w = without(parts, p);
            let k = choose|k: int| 0 <= k < w.len() && w[k] == e;
            let wi = without(init, p);
            if k < wi.len() {
                assert(wi[k] == e);
                assert(wi.contains(e));
                let m = choose|m: int| 0 <= m < init.len() && init[m] == e;
                assert(parts[m] == e);
            } else {
                assert(parts[parts.len() - 1] == e);
            }
        }
    }
}

/// Removing a known suffix from a name followed by known suffixes: the
/// name and each following suffix lose their occurrences separately.
#[verifier::rlimit(60)]
proof fn lemma_remove_all_parts(x: Seq<char>, parts: Seq<Seq<char>>, p: Seq<char>)
    requires
        is_known_suffix(p),
        forall|i: int| 0 <= i < parts.len() ==> is_known_suffix(#[trigger] parts[i]),
    ensures
        remove_all(x + concat_parts(parts), p) == remove_all(x, p) + concat_parts(without(parts, p)),
    decreases parts.len(),
{
    lemma_suffix_facts();
    if parts.len() == 0 {
        assert(x + Seq::<char>::empty() =~= x);
        assert(remove_all(x, p) + Seq::<char>::empty() =~= remove_all(x, p));
    } else {
        let init = parts.drop_last();
        let t = parts.last();
        assert(is_known_suffix(parts[parts.len() - 1]));
        lemma_remove_all_parts(x, init, p);
        let a = x + concat_parts(init);
        assert(x + concat_parts(parts) =~= a + t);
        lemma_remove_all_split(a, t, p);
        if t == p {
            assert(remove_all(x, p) + concat_parts(without(init, p)) + Seq::<char>::empty()
                =~= remove_all(x, p) + concat_parts(without(init, p)));
        } else {
            let w = without(init, p).push(t);
            assert(w.drop_last() =~= without(init, p));
            assert(remove_all(x, p) + concat_parts(without(init, p)) + t =~= remove_all(x, p) + (
            concat_parts(without(init, p)) + t));
        }
    }
}

/// Stripping is idempotent over the recognised suffixes: a name followed by
/// any run of `.json`, `.default` and `.schema`, in any order and with any
/// repetition, has the same language as the bare name. Where the name holds
/// none of them, that language is the lower-cased name.
pub proof fn lemma_language_ignores_any_suffixes(stem: Seq<char>, parts: Seq<Seq<char>>)
    requires
        forall|i: int| 0 <= i < parts.len() ==> is_known_suffix(#[trigger] parts[i]),
    ensures
        language_of(stem + concat_parts(parts)) == language_of(stem),
        (forall|i: int|
            0 <= i <= stem.len() ==> !json_suffix().is_prefix_of(#[trigger] stem.skip(i))
                && !default_suffix().is_prefix_of(stem.skip(i)) && !schema_suffix().is_prefix_of(
                stem.skip(i),
            )) ==> language_of(stem + concat_parts(parts)) == lower_of(stem),
{
    let j = json_suffix();
    let d = default_suffix();
    let sc = schema_suffix();
    let wj = without(parts, j);
    let wd = without(wj, d);
    let ws = without(wd, sc);
    lemma_without_members(parts, j);
    lemma_without_members(wj, d);
    lemma_without_members(wd, sc);
    lemma_remove_all_parts(stem, parts, j);
    assert forall|i: int| 0 <= i < wj.len() implies is_known_suffix(#[trigger] wj[i]) by {
        assert(wj.contains(wj[i]));
        let m = choose|m: int| 0 <= m < parts.len() && parts[m] == wj[i];
        assert(is_known_suffix(parts[m]));
    }
    let rj = remove_all(stem, j);
    lemma_remove_all_parts(rj, wj, d);
    assert forall|i: int| 0 <= i < wd.len() implies is_known_suffix(#[trigger] wd[i]) by {
        assert(wd.contains(wd[i]));
        assert(wj.contains(wd[i]));
        let m = choose|m: int| 0 <= m < wj.len() && wj[m] == wd[i];
        assert(is_known_suffix(wj[m]));
    }
    let rd = remove_all(rj, d);
    lemma_remove_all_parts(rd, wd, sc);
    assert(ws.len() == 0) by {
        if ws.len() > 0 {
            let e = ws[0];
            assert(ws.contains(e));
            assert(wd.contains(e));
            assert(wj.contains(e));
            assert(parts.contains(e));
            let m = choose|m: int| 0 <= m < parts.len() && parts[m] == e;
            assert(is_known_suffix(parts[m]));
        }
    }
    assert(remove_all(rd, sc) + concat_parts(ws) =~= remove_all(rd, sc));
    if forall|i: int|
        0 <= i <= stem.len() ==> !json_suffix().is_prefix_of(#[trigger] stem.skip(i))
            && !default_suffix().is_prefix_of(stem.skip(i)) && !schema_suffix().is_prefix_of(
            stem.skip(i),
        ) {
        lemma_remove_all_no_occurrence(stem, j);
        lemma_remove_all_no_occurrence(stem, d);
        lemma_remove_all_no_occurrence(stem, sc);
    }
}

} // verus!
