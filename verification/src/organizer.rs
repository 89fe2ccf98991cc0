use vstd::prelude::*;
use crate::text;

verus! {

/// The fixed table of destination folders: each category name with the
/// lower-case extensions it claims.
pub open spec fn spec_categories() -> Seq<(Seq<char>, Seq<Seq<char>>)> {
    seq![
        ("Documents"@, seq!["pdf"@, "doc"@, "docx"@, "txt"@, "odt"@, "rtf"@, "tex"@, "md"@]),
        ("Images"@, seq!["jpg"@, "jpeg"@, "png"@, "gif"@, "bmp"@, "svg"@, "webp"@, "ico"@]),
        ("Videos"@, seq!["mp4"@, "avi"@, "mkv"@, "mov"@, "wmv"@, "flv"@, "webm"@]),
        ("Audio"@, seq!["mp3"@, "wav"@, "flac"@, "aac"@, "ogg"@, "wma"@, "m4a"@]),
        ("Archives"@, seq!["zip"@, "rar"@, "7z"@, "tar"@, "gz"@, "bz2"@, "xz"@]),
        ("Code"@, seq!["rs"@, "py"@, "js"@, "ts"@, "java"@, "c"@, "cpp"@, "h"@, "go"@, "rb"@]),
        ("Spreadsheets"@, seq!["xls"@, "xlsx"@, "csv"@, "ods"@]),
    ]
}

/// The view of one built table entry.
pub open spec fn cat_view(c: (String, Vec<String>)) -> (Seq<char>, Seq<Seq<char>>) {
    (c.0@, c.1@.map_values(|s: String| s@))
}

/// The first category of `cats` whose extension list contains `ext`, if any.
pub open spec fn cat_lookup(cats: Seq<(Seq<char>, Seq<Seq<char>>)>, ext: Seq<char>) -> Option<
    Seq<char>,
>
    decreases cats.len(),
{
    if cats.len() == 0 {
        None
    } else if cats.first().1.contains(ext) {
        Some(cats.first().0)
    } else {
        cat_lookup(cats.drop_first(), ext)
    }
}

/// The destination category of a lower-case extension, if the table claims it.
pub open spec fn category_of(ext: Seq<char>) -> Option<Seq<char>> {
    cat_lookup(spec_categories(), ext)
}

fn s(x: &str) -> (r: String)
    ensures
        r@ == x@,
{
    x.to_owned()
}

/// Builds the category table as data: each category name with its extensions.
pub fn get_file_categories() -> (r: Vec<(String, Vec<String>)>)
    ensures
        r@.map_values(|c: (String, Vec<String>)| cat_view(c)) == spec_categories(),
{
    let mut r: Vec<(String, Vec<String>)> = Vec::new();

    let mut documents: Vec<String> = Vec::new();
    documents.push(s("pdf"));
    documents.push(s("doc"));
    documents.push(s("docx"));
    documents.push(s("txt"));
    documents.push(s("odt"));
    documents.push(s("rtf"));
    documents.push(s("tex"));
    documents.push(s("md"));
    r.push((s("Documents"), documents));

    let mut images: Vec<String> = Vec::new();
    images.push(s("jpg"));
    images.push(s("jpeg"));
    images.push(s("png"));
    images.push(s("gif"));
    images.push(s("bmp"));
    images.push(s("svg"));
    images.push(s("webp"));
    images.push(s("ico"));
    r.push((s("Images"), images));

    let mut videos: Vec<String> = Vec::new();
    videos.push(s("mp4"));
    videos.push(s("avi"));
    videos.push(s("mkv"));
    videos.push(s("mov"));
    videos.push(s("wmv"));
    videos.push(s("flv"));
    videos.push(s("webm"));
    r.push((s("Videos"), videos));

    let mut audio: Vec<String> = Vec::new();
    audio.push(s("mp3"));
    audio.push(s("wav"));
    audio.push(s("flac"));
    audio.push(s("aac"));
    audio.push(s("ogg"));
    audio.push(s("wma"));
    audio.push(s("m4a"));
    r.push((s("Audio"), audio));

    let mut archives: Vec<String> = Vec::new();
    archives.push(s("zip"));
    archives.push(s("rar"));
    archives.push(s("7z"));
    archives.push(s("tar"));
    archives.push(s("gz"));
    archives.push(s("bz2"));
    archives.push(s("xz"));
    r.push((s("Archives"), archives));

    let mut code: Vec<String> = Vec::new();
    code.push(s("rs"));
    code.push(s("py"));
    code.push(s("js"));
    code.push(s("ts"));
    code.push(s("java"));
    code.push(s("c"));
    code.push(s("cpp"));
    code.push(s("h"));
    code.push(s("go"));
    code.push(s("rb"));
    r.push((s("Code"), code));

    let mut spreadsheets: Vec<String> = Vec::new();
    spreadsheets.push(s("xls"));
    spreadsheets.push(s("xlsx"));
    spreadsheets.push(s("csv"));
    spreadsheets.push(s("ods"));
    r.push((s("Spreadsheets"), spreadsheets));

    proof {
        assert(r@.map_values(|c: (String, Vec<String>)| cat_view(c)) =~~= spec_categories());
    }
    r
}

fn contains_string(v: &Vec<String>, x: &String) -> (r: bool)
    ensures
        r == v@.map_values(|s: String| s@).contains(x@),
{
    let n: usize = v.len();
    let mut i: usize = 0;
    while i < n
        invariant
            i <= n,
            n == v@.len(),
            forall|j: int| 0 <= j < i ==> v@[j]@ != x@,
        decreases n - i,
    {
        if v[i] == *x {
            proof {
                assert(v@.map_values(|s: String| s@)[i as int] == x@);
            }
            return true;
        }
        i = i + 1;
    }
    proof {
        let vv = v@.map_values(|s: String| s@);
        assert forall|j: int| 0 <= j < vv.len() implies vv[j] != x@ by {
            assert(vv[j] == v@[j]@);
        }
    }
    false
}

/// Looks a lower-case extension up in the category table.
pub fn category_for_extension(ext: &String) -> (r: Option<String>)
    ensures
        match r {
            Some(c) => category_of(ext@) == Some(c@),
            None => category_of(ext@) is None,
        },
{
    let cats = get_file_categories();
    let ghost sc = spec_categories();
    let n: usize = cats.len();
    let mut i: usize = 0;
    proof {
        assert(sc.skip(0) =~= sc);
    }
    while i < n
        invariant
            i <= n,
            n == cats@.len(),
            cats@.map_values(|c: (String, Vec<String>)| cat_view(c)) == sc,
            sc == spec_categories(),
            cat_lookup(sc.skip(i as int), ext@) == category_of(ext@),
        decreases n - i,
    {
        proof {
            assert(cat_view(cats@[i as int]) == sc[i as int]);
            assert(sc.skip(i as int).first() == sc[i as int]);
            assert(sc.skip(i as int).drop_first() =~= sc.skip(i as int + 1));
        }
        if contains_string(&cats[i].1, ext) {
            return Some(cats[i].0.clone());
        }
        i = i + 1;
    }
    proof {
        assert(sc.skip(n as int) =~= Seq::empty());
    }
    None
}

/// The extension of a file name: what follows the last dot, provided that
/// dot is not the leading character (a leading-dot name has no extension).
pub open spec fn ext_of(name: Seq<char>) -> Option<Seq<char>>
    decreases name.len(),
{
    if name.len() <= 1 {
        None
    } else if name.last() == '.' {
        Some(Seq::empty())
    } else {
        match ext_of(name.drop_last()) {
            None => None,
            Some(e) => Some(e.push(name.last())),
        }
    }
}

/// A dot at position `i`, with no later dot, makes everything after it the extension.
proof fn lemma_ext_at(name: Seq<char>, i: int)
    requires
        1 <= i < name.len(),
        name[i] == '.',
        forall|j: int| i < j < name.len() ==> name[j] != '.',
    ensures
        ext_of(name) == Some(name.subrange(i + 1, name.len() as int)),
    decreases name.len(),
{
    if i == name.len() - 1 {
        assert(name.subrange(i + 1, name.len() as int) =~= Seq::empty());
    } else {
        assert(name.last() != '.');
        assert(forall|j: int| i < j < name.len() - 1 ==> name.drop_last()[j] != '.');
        assert(name.drop_last()[i] == '.');
        lemma_ext_at(name.drop_last(), i);
        assert(name.drop_last().subrange(i + 1, name.len() - 1).push(name.last()) =~= name.subrange(
            i + 1,
            name.len() as int,
        ));
    }
}

/// A name without a dot past its first character has no extension.
proof fn lemma_ext_none(name: Seq<char>)
    requires
        forall|j: int| 1 <= j < name.len() ==> name[j] != '.',
    ensures
        ext_of(name) is None,
    decreases name.len(),
{
    if name.len() > 1 {
        lemma_ext_none(name.drop_last());
    }
}

/// Extracts the extension of a file name, as `std::path` reads names:
/// the part after the last dot, none when the only dot leads the name.
pub fn extension_of(name: &str) -> (r: Option<String>)
    ensures
        match r {
            Some(e) => ext_of(name@) == Some(e@),
            None => ext_of(name@) is None,
        },
{
    let n: usize = name.unicode_len();
    let mut j: usize = n;
    while j > 0
        invariant
            j <= n,
            n == name@.len(),
            forall|k: int| j <= k < n ==> name@[k] != '.',
        decreases j,
    {
        if name.get_char(j - 1) == '.' {
            if j - 1 >= 1 {
                let e = name.substring_char(j, n).to_owned();
                proof {
                    lemma_ext_at(name@, j - 1);
                }
                return Some(e);
            } else {
                proof {
                    lemma_ext_none(name@);
                }
                return None;
            }
        }
        j = j - 1;
    }
    proof {
        lemma_ext_none(name@);
    }
    None
}

/// The planned destination of a file name: the category its lower-cased
/// extension falls under, if it has an extension the table claims.
pub open spec fn file_category(name: Seq<char>) -> Option<Seq<char>> {
    match ext_of(name) {
        None => None,
        Some(e) => category_of(text::lower(e)),
    }
}

/// Classifies one file name against the table, case-insensitively.
pub fn file_category_for(name: &str) -> (r: Option<String>)
    ensures
        match r {
            Some(c) => file_category(name@) == Some(c@),
            None => file_category(name@) is None,
        },
{
    match extension_of(name) {
        None => None,
        Some(e) => {
            let le = text::to_ascii_lower(e.as_str());
            category_for_extension(&le)
        },
    }
}

/// One planned move: the file keeps its name and goes under its category's folder.
pub struct PlanEntry {
    pub name: String,
    pub category: String,
}

/// The view of one plan entry.
pub open spec fn entry_view(p: PlanEntry) -> (Seq<char>, Seq<char>) {
    (p.name@, p.category@)
}

/// The move plan for a directory listing: one entry, in listing order, for
/// each file whose extension the table claims; nothing for the rest.
pub open spec fn plan_of(names: Seq<Seq<char>>) -> Seq<(Seq<char>, Seq<char>)>
    decreases names.len(),
{
    if names.len() == 0 {
        Seq::empty()
    } else {
        let rest = plan_of(names.drop_last());
        match file_category(names.last()) {
            Some(c) => rest.push((names.last(), c)),
            None => rest,
        }
    }
}

/// Plans the moves for the given file names. The plan is a function of the
/// names alone: whether it is then printed (dry run) or executed cannot
/// change it.
pub fn plan_moves(names: &Vec<String>) -> (r: Vec<PlanEntry>)
    ensures
        r@.map_values(|p: PlanEntry| entry_view(p)) == plan_of(
            names@.map_values(|s: String| s@),
        ),
{
    let ghost ns = names@.map_values(|s: String| s@);
    let n: usize = names.len();
    let mut r: Vec<PlanEntry> = Vec::new();
    let mut i: usize = 0;
    while i < n
        invariant
            i <= n,
            n == names@.len(),
            ns == names@.map_values(|s: String| s@),
            r@.map_values(|p: PlanEntry| entry_view(p)) == plan_of(ns.take(i as int)),
        decreases n - i,
    {
        proof {
            assert(ns.take(i as int + 1).drop_last() =~= ns.take(i as int));
            assert(ns.take(i as int + 1).last() == ns[i as int]);
            assert(ns[i as int] == names@[i as int]@);
        }
        match file_category_for(names[i].as_str()) {
            Some(c) => {
                r.push(PlanEntry { name: names[i].clone(), category: c });
                proof {
                    assert(r@.map_values(|p: PlanEntry| entry_view(p)) =~= plan_of(
                        ns.take(i as int + 1),
                    ));
                }
            },
            None => {
                proof {
                    assert(r@.map_values(|p: PlanEntry| entry_view(p)) =~= plan_of(
                        ns.take(i as int + 1),
                    ));
                }
            },
        }
        i = i + 1;
    }
    proof {
        assert(ns.take(n as int) =~= ns);
    }
    r
}

/// The view of a whole plan.
pub open spec fn plan_view(plan: Seq<PlanEntry>) -> Seq<(Seq<char>, Seq<char>)> {
    plan.map_values(|p: PlanEntry| entry_view(p))
}

/// How many entries of the plan fall under one category.
pub open spec fn spec_count(plan: Seq<(Seq<char>, Seq<char>)>, cat: Seq<char>) -> nat
    decreases plan.len(),
{
    if plan.len() == 0 {
        0
    } else {
        spec_count(plan.drop_last(), cat) + if plan.last().1 == cat {
            1nat
        } else {
            0nat
        }
    }
}

/// A category's count never exceeds the plan's length.
proof fn lemma_count_le_len(plan: Seq<(Seq<char>, Seq<char>)>, cat: Seq<char>)
    ensures
        spec_count(plan, cat) <= plan.len(),
    decreases plan.len(),
{
    if plan.len() > 0 {
        lemma_count_le_len(plan.drop_last(), cat);
    }
}

/// Sums the plan per category: each category that occurs in the plan appears
/// once, in order of first appearance, with the number of its entries.
pub fn category_counts(plan: &Vec<PlanEntry>) -> (r: Vec<(String, usize)>)
    ensures
        forall|j: int|
            0 <= j < r@.len() ==> #[trigger] r@[j].1 == spec_count(plan_view(plan@), r@[j].0@),
        forall|j: int, l: int|
            0 <= j < l < r@.len() ==> #[trigger] r@[j].0@ != #[trigger] r@[l].0@,
        forall|c: Seq<char>| #![trigger spec_count(plan_view(plan@), c)]
            (forall|j: int| 0 <= j < r@.len() ==> #[trigger] r@[j].0@ != c) ==> spec_count(
                plan_view(plan@),
                c,
            ) == 0,
{
    let ghost pv = plan_view(plan@);
    let n: usize = plan.len();
    let mut r: Vec<(String, usize)> = Vec::new();
    let mut i: usize = 0;
    while i < n
        invariant
            i <= n,
            n == plan@.len(),
            pv == plan_view(plan@),
            forall|j: int|
                0 <= j < r@.len() ==> #[trigger] r@[j].1 == spec_count(pv.take(i as int), r@[j].0@),
            forall|j: int, l: int|
                0 <= j < l < r@.len() ==> #[trigger] r@[j].0@ != #[trigger] r@[l].0@,
            forall|c: Seq<char>|
                (forall|j: int| 0 <= j < r@.len() ==> #[trigger] r@[j].0@ != c) ==> spec_count(
                    pv.take(i as int),
                    c,
                ) == 0,
        decreases n - i,
    {
        proof {
            assert(pv.take(i as int + 1).drop_last() =~= pv.take(i as int));
            assert(pv.take(i as int + 1).last() == pv[i as int]);
            assert(pv[i as int] == entry_view(plan@[i as int]));
            lemma_count_le_len(pv.take(i as int), plan@[i as int].category@);
            assert(pv.take(i as int).len() <= i);
        }
        let cat = plan[i].category.clone();
        let ghost catv = cat@;
        let m: usize = r.len();
        let mut j: usize = 0;
        let mut found = false;
        while j < m && !found
            invariant
                j <= m,
                m == r@.len(),
                !found ==> forall|l: int| 0 <= l < j ==> #[trigger] r@[l].0@ != cat@,
                found ==> j < m && r@[j as int].0@ == cat@,
            decreases m - j + if found {
                0int
            } else {
                1int
            },
        {
            if r[j].0 == cat {
                found = true;
            } else {
                j = j + 1;
            }
        }
        if found {
            let c0 = r[j].0.clone();
            let old_count = r[j].1;
            let ghost old_r = r@;
            r[j] = (c0, old_count + 1);
            proof {
                assert(r@[j as int].0@ == cat@);
                assert(exists|w: int| 0 <= w < r@.len() && #[trigger] r@[w].0@ == catv);
                assert(pv[i as int].1 == cat@);
                assert forall|l: int| 0 <= l < r@.len() implies #[trigger] r@[l].1 == spec_count(
                    pv.take(i as int + 1),
                    r@[l].0@,
                ) by {
                    if l == j {
                        assert(spec_count(pv.take(i as int + 1), cat@) == spec_count(
                            pv.take(i as int),
                            cat@,
                        ) + 1);
                    } else {
                        assert(r@[l] == old_r[l]);
                        assert(old_r[l].0@ != cat@);
                        assert(spec_count(pv.take(i as int + 1), r@[l].0@) == spec_count(
                            pv.take(i as int),
                            r@[l].0@,
                        ));
                    }
                }
                assert forall|l: int| 0 <= l < r@.len() implies #[trigger] r@[l].0@
                    == old_r[l].0@ by {}
                assert forall|c: Seq<char>| #![trigger spec_count(pv.take(i as int + 1), c)]
                    (forall|l: int| 0 <= l < r@.len() ==> #[trigger] r@[l].0@ != c) implies
                    spec_count(pv.take(i as int + 1), c) == 0 by {
                    assert forall|l: int| 0 <= l < old_r.len() implies #[trigger] old_r[l].0@
                        != c by {
                        assert(r@[l].0@ == old_r[l].0@);
                        assert(r@[l].0@ != c);
                    }
                    assert(spec_count(pv.take(i as int), c) == 0);
                    assert(c != cat@) by {
                        let w: int = choose|w: int|
                            0 <= w < r@.len() && #[trigger] r@[w].0@ == cat@;
                        assert(r@[w].0@ != c);
                    }
                }
            }
        } else {
            let ghost old_r = r@;
            proof {
                assert(forall|l: int| 0 <= l < old_r.len() ==> #[trigger] old_r[l].0@ != cat@);
                assert(spec_count(pv.take(i as int), cat@) == 0);
            }
            r.push((cat, 1));
            proof {
                let ghost wlast: int = r@.len() - 1;
                assert(r@[wlast].0@ == cat@);
                assert(exists|w: int| 0 <= w < r@.len() && #[trigger] r@[w].0@ == catv);
                assert(pv[i as int].1 == cat@);
                assert forall|l: int| 0 <= l < r@.len() implies #[trigger] r@[l].1 == spec_count(
                    pv.take(i as int + 1),
                    r@[l].0@,
                ) by {
                    if l == r@.len() - 1 {
                        assert(spec_count(pv.take(i as int + 1), cat@) == spec_count(
                            pv.take(i as int),
                            cat@,
                        ) + 1);
                    } else {
                        assert(r@[l] == old_r[l]);
                        assert(old_r[l].0@ != cat@);
                    }
                }
                assert forall|c: Seq<char>| #![trigger spec_count(pv.take(i as int + 1), c)]
                    (forall|l: int| 0 <= l < r@.len() ==> #[trigger] r@[l].0@ != c) implies
                    spec_count(pv.take(i as int + 1), c) == 0 by {
                    assert forall|l: int| 0 <= l < old_r.len() implies #[trigger] old_r[l].0@
                        != c by {
                        assert(r@[l].0@ == old_r[l].0@);
                        assert(r@[l].0@ != c);
                    }
                    assert(spec_count(pv.take(i as int), c) == 0);
                    assert(c != cat@) by {
                        let w: int = choose|w: int|
                            0 <= w < r@.len() && #[trigger] r@[w].0@ == cat@;
                        assert(r@[w].0@ != c);
                    }
                }
            }
        }
        i = i + 1;
    }
    proof {
        assert(pv.take(n as int) =~= pv);
    }
    r
}

/// Every planned entry names a listed file, and its destination category is
/// what the table gives for the file's lower-cased extension.
pub proof fn lemma_plan_matches_table(names: Seq<Seq<char>>, k: int)
    requires
        0 <= k < plan_of(names).len(),
    ensures
        names.contains(plan_of(names)[k].0),
        file_category(plan_of(names)[k].0) == Some(plan_of(names)[k].1),
    decreases names.len(),
{
    if names.len() > 0 {
        let rest = plan_of(names.drop_last());
        if k < rest.len() {
            lemma_plan_matches_table(names.drop_last(), k);
            let nm = plan_of(names.drop_last())[k].0;
            let j = choose|j: int| 0 <= j < names.drop_last().len() && names.drop_last()[j] == nm;
            assert(names[j] == nm);
        } else {
            assert(names[names.len() - 1] == names.last());
        }
    }
}

/// A file with an unknown or missing extension is never planned.
pub proof fn lemma_unmatched_not_planned(names: Seq<Seq<char>>, name: Seq<char>)
    requires
        file_category(name) is None,
    ensures
        forall|k: int| 0 <= k < plan_of(names).len() ==> #[trigger] plan_of(names)[k].0 != name,
    decreases names.len(),
{
    if names.len() > 0 {
        lemma_unmatched_not_planned(names.drop_last(), name);
        let rest = plan_of(names.drop_last());
        assert forall|k: int| 0 <= k < plan_of(names).len() implies #[trigger] plan_of(
            names,
        )[k].0 != name by {
            if k < rest.len() {
                assert(plan_of(names)[k] == rest[k]);
            }
        }
    }
}

} // verus!
