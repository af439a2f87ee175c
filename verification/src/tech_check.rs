//! Technical-term checking of Markdown documents: every term of a list must be
//! backtick-quoted where it occurs, and backtick-quoted words must be listed terms.

pub mod spans;
pub mod terms;
pub mod unquoted;
pub mod backticked;
pub mod edits;
pub mod fix;

use vstd::prelude::*;
use crate::config::TechCheckConfig;
use crate::file_index::{FileIndex, query_spec, scan_root_spec};
use crate::text::{
    append_str, append_decimal, decimal, newline_count, vecs_view, to_chars, strings_view, str_eq,
    strs_view, lines, lines_of, trim, trim_chars, from_chars, eq_ignore_ascii_case,
};
use crate::paths::{extension_spec, path_extension};
use crate::checksum::pairs_view;
use self::backticked::{
    dedup, lemma_dedup, backticked_terms_spec, is_listed, find_backticked_terms, strings_to_chars,
    is_listed_exec,
};
use self::fix::sort_by_len_desc;
use self::unquoted::{unquoted_spec, find_unquoted_terms};
use self::fix::sorted_terms;

verus! {

/// The terms a term file lists: its lines, trimmed, without the blank ones.
pub open spec fn listed_terms(lines: Seq<Seq<char>>) -> Seq<Seq<char>>
    decreases lines.len(),
{
    if lines.len() == 0 {
        seq![]
    } else {
        let rest = listed_terms(lines.drop_last());
        let t = trim(lines.last());
        if t.len() > 0 {
            rest.push(t)
        } else {
            rest
        }
    }
}

/// The terms a term file lists, one per line.
pub fn terms_in(content: &str) -> (r: Vec<String>)
    ensures
        strings_view(r@) == listed_terms(lines_of(content@)),
{
    let ls = lines(content);
    let ghost lv = vecs_view(ls@);
    let mut r: Vec<String> = Vec::new();
    let mut i: usize = 0;
    while i < ls.len()
        invariant
            i <= ls@.len(),
            lv == vecs_view(ls@),
            strings_view(r@) == listed_terms(lv.take(i as int)),
        decreases ls@.len() - i,
    {
        proof {
            assert(lv.take(i + 1).drop_last() == lv.take(i as int));
            assert(lv.take(i + 1).last() == ls@[i as int]@);
        }
        let t = trim_chars(ls[i].as_slice());
        if t.len() > 0 {
            let ghost before = strings_view(r@);
            r.push(from_chars(t.as_slice()));
            proof {
                assert(strings_view(r@) =~= before.push(t@));
            }
        }
        i = i + 1;
    }
    assert(lv.take(ls@.len() as int) == lv);
    r
}

/// Whether a file of the term directory is a term file: its extension is
/// exactly `txt`.
pub fn is_term_file(path: &str) -> (r: bool)
    ensures
        r == (extension_spec(path@) == Some("txt"@)),
{
    match path_extension(path) {
        Some(e) => str_eq(e.as_str(), "txt"),
        None => false,
    }
}

/// The error for a term directory that does not exist or is no directory.
pub fn terms_dir_error(tech_files_dir: &str) -> (r: String)
    ensures
        r@ == "tech_files_dir `"@ + tech_files_dir@ + "` does not exist or is not a directory"@,
{
    let mut r = String::new();
    append_str(&mut r, "tech_files_dir `");
    append_str(&mut r, tech_files_dir);
    append_str(&mut r, "` does not exist or is not a directory");
    r
}

/// The terms the texts list, text after text, repeats kept.
pub open spec fn listed_in_texts(texts: Seq<Seq<char>>) -> Seq<Seq<char>>
    decreases texts.len(),
{
    if texts.len() == 0 {
        seq![]
    } else {
        listed_in_texts(texts.drop_last()) + listed_terms(lines_of(texts.last()))
    }
}

proof fn lemma_listed_in_texts_contains(texts: Seq<Seq<char>>, t: Seq<char>)
    ensures
        listed_in_texts(texts).contains(t) <==> exists|i: int|
            0 <= i < texts.len() && #[trigger] listed_terms(lines_of(texts[i])).contains(t),
    decreases texts.len(),
{
    if texts.len() > 0 {
        let d = texts.drop_last();
        lemma_listed_in_texts_contains(d, t);
        let a = listed_in_texts(d);
        let b = listed_terms(lines_of(texts.last()));
        let ab = a + b;
        assert(listed_in_texts(texts) == ab);
        if ab.contains(t) {
            let k = choose|k: int| 0 <= k < ab.len() && ab[k] == t;
            if k < a.len() {
                assert(a[k] == t);
                assert(a.contains(t));
                let i = choose|i: int| 0 <= i < d.len() && #[trigger] listed_terms(lines_of(d[i])).contains(t);
                assert(texts[i] == d[i]);
            } else {
                assert(b[k - a.len()] == t);
                assert(b.contains(t));
                assert(listed_terms(lines_of(texts[texts.len() - 1])).contains(t));
            }
        }
        if exists|i: int| 0 <= i < texts.len() && #[trigger] listed_terms(lines_of(texts[i])).contains(t) {
            let i = choose|i: int| 0 <= i < texts.len() && #[trigger] listed_terms(lines_of(texts[i])).contains(t);
            if i < texts.len() - 1 {
                assert(d[i] == texts[i]);
                assert(a.contains(t));
                let k = choose|k: int| 0 <= k < a.len() && a[k] == t;
                assert(ab[k] == t);
            } else {
                assert(b.contains(t));
                let k = choose|k: int| 0 <= k < b.len() && b[k] == t;
                assert(ab[a.len() + k] == t);
            }
        }
    }
}

/// The term list of a term directory holds exactly the terms that some
/// term file lists, none of them twice.
pub proof fn lemma_terms_of_files_union(texts: Seq<Seq<char>>, t: Seq<char>)
    ensures
        dedup(listed_in_texts(texts)).contains(t) <==> exists|i: int|
            0 <= i < texts.len() && #[trigger] listed_terms(lines_of(texts[i])).contains(t),
        forall|i: int, j: int|
            0 <= i < j < dedup(listed_in_texts(texts)).len() ==> #[trigger] dedup(listed_in_texts(texts))[i]
                != #[trigger] dedup(listed_in_texts(texts))[j],
{
    lemma_dedup(listed_in_texts(texts));
    lemma_listed_in_texts_contains(texts, t);
}

fn contains_string(v: &Vec<String>, x: &str) -> (r: bool)
    ensures
        r == strings_view(v@).contains(x@),
{
    let mut k: usize = 0;
    while k < v.len()
        invariant
            k <= v@.len(),
            forall|j: int| 0 <= j < k ==> strings_view(v@)[j] != x@,
        decreases v@.len() - k,
    {
        if str_eq(v[k].as_str(), x) {
            assert(strings_view(v@)[k as int] == x@);
            return true;
        }
        k = k + 1;
    }
    false
}

/// The term list of a term directory, from the texts of its term files:
/// every term some file lists, each once, in the order they first come.
pub fn terms_of_files(texts: &[String]) -> (r: Vec<String>)
    ensures
        strings_view(r@) == dedup(listed_in_texts(strings_view(texts@))),
{
    let ghost tv = strings_view(texts@);
    let mut r: Vec<String> = Vec::new();
    let mut i: usize = 0;
    while i < texts.len()
        invariant
            i <= texts@.len(),
            tv == strings_view(texts@),
            strings_view(r@) == dedup(listed_in_texts(tv.take(i as int))),
        decreases texts@.len() - i,
    {
        proof {
            assert(tv.take(i + 1).drop_last() == tv.take(i as int));
            assert(tv.take(i + 1).last() == texts@[i as int]@);
        }
        let ghost prev = listed_in_texts(tv.take(i as int));
        let ts = terms_in(texts[i].as_str());
        let ghost lt = strings_view(ts@);
        let mut j: usize = 0;
        assert(prev + lt.take(0) == prev);
        while j < ts.len()
            invariant
                j <= ts@.len(),
                lt == strings_view(ts@),
                strings_view(r@) == dedup(prev + lt.take(j as int)),
            decreases ts@.len() - j,
        {
            proof {
                assert((prev + lt.take(j + 1)).drop_last() == prev + lt.take(j as int));
                assert((prev + lt.take(j + 1)).last() == ts@[j as int]@);
            }
            if !contains_string(&r, ts[j].as_str()) {
                let ghost before = strings_view(r@);
                r.push(ts[j].clone());
                assert(strings_view(r@) == before.push(ts@[j as int]@));
            }
            j = j + 1;
        }
        assert(lt.take(ts@.len() as int) == lt);
        i = i + 1;
    }
    assert(tv.take(texts@.len() as int) == tv);
    r
}

/// The texts of the term files among `files` (each a path and its text),
/// in order.
pub open spec fn term_file_texts(files: Seq<(Seq<char>, Seq<char>)>) -> Seq<Seq<char>>
    decreases files.len(),
{
    if files.len() == 0 {
        seq![]
    } else {
        let rest = term_file_texts(files.drop_last());
        if extension_spec(files.last().0) == Some("txt"@) {
            rest.push(files.last().1)
        } else {
            rest
        }
    }
}

/// Loads the term list of a term directory, from whether it is a
/// directory and its entries (each a path and its text; an entry that is
/// no term file may come with any text): the error of `terms_dir_error`
/// when it is no directory, else the terms of its term files, each once.
pub fn load_terms_from(tech_files_dir: &str, is_dir: bool, files: &[(String, String)]) -> (r: Result<Vec<String>, String>)
    ensures
        !is_dir ==> (r matches Err(m) && m@ == "tech_files_dir `"@ + tech_files_dir@
            + "` does not exist or is not a directory"@),
        is_dir ==> (r matches Ok(t) && strings_view(t@) == dedup(
            listed_in_texts(term_file_texts(pairs_view(files@))),
        )),
{
    if !is_dir {
        return Err(terms_dir_error(tech_files_dir));
    }
    let ghost fv = pairs_view(files@);
    let mut texts: Vec<String> = Vec::new();
    let mut i: usize = 0;
    while i < files.len()
        invariant
            i <= files@.len(),
            fv == pairs_view(files@),
            strings_view(texts@) == term_file_texts(fv.take(i as int)),
        decreases files@.len() - i,
    {
        proof {
            assert(fv.take(i + 1).drop_last() == fv.take(i as int));
            assert(fv.take(i + 1).last() == (files@[i as int].0@, files@[i as int].1@));
        }
        if is_term_file(files[i].0.as_str()) {
            let ghost before = strings_view(texts@);
            texts.push(files[i].1.clone());
            assert(strings_view(texts@) == before.push(files@[i as int].1@));
        }
        i = i + 1;
    }
    assert(fv.take(files@.len() as int) == fv);
    Ok(terms_of_files(&texts))
}

/// The checker of technical terms in Markdown files.
pub struct TechCheckProcessor {
    pub config: TechCheckConfig,
}

/// "path:line: tech term `term` is not backtick-quoted"
pub open spec fn unquoted_error(path: Seq<char>, line: nat, term: Seq<char>) -> Seq<char> {
    path + ":"@ + decimal(line) + ": tech term `"@ + term + "` is not backtick-quoted"@
}

/// "path: `word` is backtick-quoted but not in tech term list"
pub open spec fn unknown_error(path: Seq<char>, word: Seq<char>) -> Seq<char> {
    path + ": `"@ + word + "` is backtick-quoted but not in tech term list"@
}

/// "tech term `term` is in dir but never backtick-quoted in any file"
pub open spec fn unused_error(term: Seq<char>, dir: Seq<char>) -> Seq<char> {
    "tech term `"@ + term + "` is in "@ + dir + " but never backtick-quoted in any file"@
}

/// The errors of one file: its unquoted term occurrences, then its
/// backtick-quoted words that are not listed terms.
pub open spec fn file_errors(
    path: Seq<char>,
    content: Seq<char>,
    terms: Seq<Seq<char>>,
    sorted: Seq<Seq<char>>,
) -> Seq<Seq<char>> {
    unquoted_spec(content, sorted).map_values(
        |m: (int, int, int)|
            unquoted_error(path, newline_count(content.take(m.0)) + 1, sorted[m.2]),
    ) + unknown_errors(path, backticked_terms_spec(content), terms)
}

/// An error for each word that is not a listed term, in order.
pub open spec fn unknown_errors(path: Seq<char>, words: Seq<Seq<char>>, terms: Seq<Seq<char>>) -> Seq<
    Seq<char>,
>
    decreases words.len(),
{
    if words.len() == 0 {
        Seq::empty()
    } else {
        let prev = unknown_errors(path, words.drop_last(), terms);
        if is_listed(terms, words.last()) {
            prev
        } else {
            prev.push(unknown_error(path, words.last()))
        }
    }
}

/// The errors of the files in order, and the backtick-quoted words of all of them.
pub open spec fn files_errors(
    files: Seq<(Seq<char>, Seq<char>)>,
    terms: Seq<Seq<char>>,
    sorted: Seq<Seq<char>>,
) -> (Seq<Seq<char>>, Seq<Seq<char>>)
    decreases files.len(),
{
    if files.len() == 0 {
        (Seq::empty(), Seq::empty())
    } else {
        let (errs, words) = files_errors(files.drop_last(), terms, sorted);
        let f = files.last();
        (errs + file_errors(f.0, f.1, terms, sorted), words + backticked_terms_spec(f.1))
    }
}

/// The listed terms that no file backtick-quotes, as errors.
pub open spec fn unused_errors(terms: Seq<Seq<char>>, words: Seq<Seq<char>>, dir: Seq<char>) -> Seq<
    Seq<char>,
>
    decreases terms.len(),
{
    if terms.len() == 0 {
        Seq::empty()
    } else {
        let prev = unused_errors(terms.drop_last(), words, dir);
        if is_listed(words, terms.last()) {
            prev
        } else {
            prev.push(unused_error(terms.last(), dir))
        }
    }
}

/// The lines joined with newlines.
pub open spec fn join_lines(lines: Seq<Seq<char>>) -> Seq<char>
    decreases lines.len(),
{
    if lines.len() == 0 {
        Seq::empty()
    } else if lines.len() == 1 {
        lines[0]
    } else {
        join_lines(lines.drop_last()) + "\n"@ + lines.last()
    }
}

/// All errors of a check.
pub open spec fn check_errors(
    files: Seq<(Seq<char>, Seq<char>)>,
    terms: Seq<Seq<char>>,
    sorted: Seq<Seq<char>>,
    dir: Seq<char>,
) -> Seq<Seq<char>> {
    let (errs, words) = files_errors(files, terms, sorted);
    errs + unused_errors(terms, words, dir)
}

/// No file has an unquoted term occurrence.
#[verifier::opaque]
pub open spec fn all_unquoted_free(files: Seq<(Seq<char>, Seq<char>)>, sorted: Seq<Seq<char>>) -> bool {
    forall|f: int| 0 <= f < files.len() ==> (#[trigger] unquoted_spec(files[f].1, sorted)).len() == 0
}

/// Every backtick-quoted word of every file is a listed term.
#[verifier::opaque]
pub open spec fn all_backticked_listed(files: Seq<(Seq<char>, Seq<char>)>, terms: Seq<Seq<char>>) -> bool {
    forall|f: int, i: int|
        0 <= f < files.len() && 0 <= i < backticked_terms_spec(files[f].1).len() ==> is_listed(
            terms,
            #[trigger] backticked_terms_spec(files[f].1)[i],
        )
}

/// Some file backtick-quotes the term.
pub open spec fn term_used(files: Seq<(Seq<char>, Seq<char>)>, t: Seq<char>) -> bool {
    exists|f: int| 0 <= f < files.len() && #[trigger] is_listed(backticked_terms_spec(files[f].1), t)
}

/// Every listed term is backtick-quoted in some file.
#[verifier::opaque]
pub open spec fn all_terms_used(files: Seq<(Seq<char>, Seq<char>)>, terms: Seq<Seq<char>>) -> bool {
    forall|k: int| 0 <= k < terms.len() ==> #[trigger] term_used(files, terms[k])
}

/// A check passes: no file has an unquoted term, every backtick-quoted word
/// of every file is a listed term, and every listed term is
/// backtick-quoted in some file (words compared ignoring ASCII case).
pub open spec fn check_passes(
    files: Seq<(Seq<char>, Seq<char>)>,
    terms: Seq<Seq<char>>,
    sorted: Seq<Seq<char>>,
) -> bool {
    &&& all_unquoted_free(files, sorted)
    &&& all_backticked_listed(files, terms)
    &&& all_terms_used(files, terms)
}

proof fn lemma_unknown_errors_empty(path: Seq<char>, words: Seq<Seq<char>>, terms: Seq<Seq<char>>)
    ensures
        unknown_errors(path, words, terms).len() == 0 <==> forall|i: int|
            0 <= i < words.len() ==> is_listed(terms, #[trigger] words[i]),
    decreases words.len(),
{
    if words.len() > 0 {
        lemma_unknown_errors_empty(path, words.drop_last(), terms);
        if unknown_errors(path, words, terms).len() == 0 {
            assert forall|i: int| 0 <= i < words.len() implies is_listed(terms, #[trigger] words[i]) by {
                if i < words.len() - 1 {
                    assert(words.drop_last()[i] == words[i]);
                }
            }
        }
        if forall|i: int| 0 <= i < words.len() ==> is_listed(terms, #[trigger] words[i]) {
            assert(is_listed(terms, words[words.len() - 1]));
            assert forall|i: int| 0 <= i < words.drop_last().len() implies is_listed(
                terms,
                #[trigger] words.drop_last()[i],
            ) by {
                assert(words.drop_last()[i] == words[i]);
            }
        }
    }
}

proof fn lemma_unused_errors_empty(terms: Seq<Seq<char>>, words: Seq<Seq<char>>, dir: Seq<char>)
    ensures
        unused_errors(terms, words, dir).len() == 0 <==> forall|k: int|
            0 <= k < terms.len() ==> is_listed(words, #[trigger] terms[k]),
    decreases terms.len(),
{
    if terms.len() > 0 {
        lemma_unused_errors_empty(terms.drop_last(), words, dir);
        if unused_errors(terms, words, dir).len() == 0 {
            assert forall|k: int| 0 <= k < terms.len() implies is_listed(words, #[trigger] terms[k]) by {
                if k < terms.len() - 1 {
                    assert(terms.drop_last()[k] == terms[k]);
                }
            }
        }
        if forall|k: int| 0 <= k < terms.len() ==> is_listed(words, #[trigger] terms[k]) {
            assert(is_listed(words, terms[terms.len() - 1]));
            assert forall|k: int| 0 <= k < terms.drop_last().len() implies is_listed(
                words,
                #[trigger] terms.drop_last()[k],
            ) by {
                assert(terms.drop_last()[k] == terms[k]);
            }
        }
    }
}

proof fn lemma_files_errors(files: Seq<(Seq<char>, Seq<char>)>, terms: Seq<Seq<char>>, sorted: Seq<Seq<char>>)
    ensures
        files_errors(files, terms, sorted).0.len() == 0 <==> all_unquoted_free(files, sorted)
            && all_backticked_listed(files, terms),
        forall|t: Seq<char>|
            #[trigger] is_listed(files_errors(files, terms, sorted).1, t) <==> term_used(files, t),
    decreases files.len(),
{
    reveal(all_unquoted_free);
    reveal(all_backticked_listed);
    if files.len() > 0 {
        let d = files.drop_last();
        lemma_files_errors(d, terms, sorted);
        let last = files.last();
        let (errs, words) = files_errors(d, terms, sorted);
        let bt = backticked_terms_spec(last.1);
        lemma_unknown_errors_empty(last.0, bt, terms);
        let fe = file_errors(last.0, last.1, terms, sorted);
        assert(fe.len() == unquoted_spec(last.1, sorted).len() + unknown_errors(last.0, bt, terms).len());
        assert forall|f: int| 0 <= f < d.len() implies #[trigger] d[f] == files[f] by {}
        assert forall|t: Seq<char>|
            #[trigger] is_listed(files_errors(files, terms, sorted).1, t) <==> term_used(files, t) by {
            let all = words + bt;
            assert(files_errors(files, terms, sorted).1 == all);
            if is_listed(all, t) {
                let k = choose|k: int| 0 <= k < all.len() && eq_ignore_ascii_case(all[k], t);
                if k < words.len() {
                    assert(words[k] == all[k]);
                    assert(is_listed(words, t));
                    let f = choose|f: int| 0 <= f < d.len() && #[trigger] is_listed(backticked_terms_spec(d[f].1), t);
                    assert(d[f] == files[f]);
                } else {
                    assert(bt[k - words.len()] == all[k]);
                    assert(is_listed(backticked_terms_spec(files[files.len() - 1].1), t));
                }
            }
            if exists|f: int| 0 <= f < files.len() && #[trigger] is_listed(backticked_terms_spec(files[f].1), t) {
                let f = choose|f: int| 0 <= f < files.len() && #[trigger] is_listed(backticked_terms_spec(files[f].1), t);
                if f < d.len() {
                    assert(d[f] == files[f]);
                    assert(is_listed(words, t));
                    let k = choose|k: int| 0 <= k < words.len() && eq_ignore_ascii_case(words[k], t);
                    assert(all[k] == words[k]);
                } else {
                    let k = choose|k: int| 0 <= k < bt.len() && eq_ignore_ascii_case(bt[k], t);
                    assert(all[k + words.len()] == bt[k]);
                }
            }
        }
        if files_errors(files, terms, sorted).0.len() == 0 {
            assert(errs.len() == 0 && fe.len() == 0);
            assert forall|f: int| 0 <= f < files.len() implies (#[trigger] unquoted_spec(files[f].1, sorted)).len() == 0 by {
                if f < d.len() {
                    assert(d[f] == files[f]);
                }
            }
            assert forall|f: int, i: int|
                0 <= f < files.len() && 0 <= i < backticked_terms_spec(files[f].1).len() implies is_listed(
                terms,
                #[trigger] backticked_terms_spec(files[f].1)[i],
            ) by {
                if f < d.len() {
                    assert(d[f] == files[f]);
                }
            }
        }
        if (forall|f: int| 0 <= f < files.len() ==> (#[trigger] unquoted_spec(files[f].1, sorted)).len() == 0) && (
        forall|f: int, i: int|
            0 <= f < files.len() && 0 <= i < backticked_terms_spec(files[f].1).len() ==> is_listed(
                terms,
                #[trigger] backticked_terms_spec(files[f].1)[i],
            )) {
            assert forall|f: int| 0 <= f < d.len() implies (#[trigger] unquoted_spec(d[f].1, sorted)).len() == 0 by {
                assert(d[f] == files[f]);
            }
            assert forall|f: int, i: int|
                0 <= f < d.len() && 0 <= i < backticked_terms_spec(d[f].1).len() implies is_listed(
                terms,
                #[trigger] backticked_terms_spec(d[f].1)[i],
            ) by {
                assert(d[f] == files[f]);
            }
            assert(unquoted_spec(files[files.len() - 1].1, sorted).len() == 0);
            assert forall|i: int| 0 <= i < bt.len() implies is_listed(terms, #[trigger] bt[i]) by {
                assert(bt[i] == backticked_terms_spec(files[files.len() - 1].1)[i]);
            }
        }
    }
}

proof fn lemma_terms_used(
    files: Seq<(Seq<char>, Seq<char>)>,
    terms: Seq<Seq<char>>,
    words: Seq<Seq<char>>,
)
    requires
        forall|t: Seq<char>| #[trigger] is_listed(words, t) <==> term_used(files, t),
    ensures
        (forall|k: int| 0 <= k < terms.len() ==> is_listed(words, #[trigger] terms[k])) <==> all_terms_used(
            files,
            terms,
        ),
{
    reveal(all_terms_used);
    if forall|k: int| 0 <= k < terms.len() ==> is_listed(words, #[trigger] terms[k]) {
        assert forall|k: int| 0 <= k < terms.len() implies #[trigger] term_used(files, terms[k]) by {
            assert(is_listed(words, terms[k]));
        }
    }
    if all_terms_used(files, terms) {
        assert forall|k: int| 0 <= k < terms.len() implies is_listed(words, #[trigger] terms[k]) by {
            assert(term_used(files, terms[k]));
        }
    }
}

/// A check reports no error exactly when it passes.
pub proof fn lemma_check_errors_empty(
    files: Seq<(Seq<char>, Seq<char>)>,
    terms: Seq<Seq<char>>,
    sorted: Seq<Seq<char>>,
    dir: Seq<char>,
)
    ensures
        check_errors(files, terms, sorted, dir).len() == 0 <==> check_passes(files, terms, sorted),
{
    let fe = files_errors(files, terms, sorted);
    lemma_files_errors(files, terms, sorted);
    lemma_unused_errors_empty(terms, fe.1, dir);
    lemma_terms_used(files, terms, fe.1);
    assert(check_errors(files, terms, sorted, dir) == fe.0 + unused_errors(terms, fe.1, dir));
}

pub open spec fn files_view(files: Seq<(String, String)>) -> Seq<(Seq<char>, Seq<char>)> {
    files.map_values(|f: (String, String)| (f.0@, f.1@))
}


fn unquoted_error_exec(path: &str, line: usize, term: &str) -> (r: String)
    ensures
        r@ == unquoted_error(path@, line as nat, term@),
{
    let mut m = String::new();
    append_str(&mut m, path);
    append_str(&mut m, ":");
    append_decimal(&mut m, line);
    append_str(&mut m, ": tech term `");
    append_str(&mut m, term);
    append_str(&mut m, "` is not backtick-quoted");
    m
}

fn unknown_error_exec(path: &str, word: &str) -> (r: String)
    ensures
        r@ == unknown_error(path@, word@),
{
    let mut m = String::new();
    append_str(&mut m, path);
    append_str(&mut m, ": `");
    append_str(&mut m, word);
    append_str(&mut m, "` is backtick-quoted but not in tech term list");
    m
}

fn unused_error_exec(term: &str, dir: &str) -> (r: String)
    ensures
        r@ == unused_error(term@, dir@),
{
    let mut m = String::new();
    append_str(&mut m, "tech term `");
    append_str(&mut m, term);
    append_str(&mut m, "` is in ");
    append_str(&mut m, dir);
    append_str(&mut m, " but never backtick-quoted in any file");
    m
}

/// The lines joined with newlines.
pub fn join_lines_exec(lines: &Vec<String>) -> (r: String)
    ensures
        r@ == join_lines(strings_view(lines@)),
{
    let ghost lv = strings_view(lines@);
    let mut r = String::new();
    let mut i: usize = 0;
    assert(lv.take(0).len() == 0);
    while i < lines.len()
        invariant
            i <= lines@.len(),
            lv == strings_view(lines@),
            r@ == join_lines(lv.take(i as int)),
        decreases lines@.len() - i,
    {
        proof {
            assert(lv.take(i + 1).drop_last() == lv.take(i as int));
            assert(lv.take(i + 1).last() == lines@[i as int]@);
        }
        if i > 0 {
            append_str(&mut r, "\n");
        } else {
            assert(lv.take(0) =~= Seq::<Seq<char>>::empty());
            assert(lv.take(1)[0] == lines@[0]@);
        }
        append_str(&mut r, lines[i].as_str());
        i = i + 1;
    }
    assert(lv.take(lines@.len() as int) == lv);
    r
}

impl TechCheckProcessor {
    pub fn new(config: TechCheckConfig) -> (r: Self)
        ensures
            r.config == config,
    {
        Self { config }
    }

    pub fn description(&self) -> (r: &'static str)
        ensures
            r@ == "Check that technical terms are backtick-quoted in markdown files"@,
    {
        "Check that technical terms are backtick-quoted in markdown files"
    }

    /// The checker applies when the term directory exists and the scan
    /// finds Markdown files.
    pub fn auto_detect(&self, terms_dir_exists: bool, index: &FileIndex, project_root: &str) -> (r: bool)
        ensures
            r == (terms_dir_exists && query_spec(
                strings_view(index.files@),
                scan_root_spec(project_root@, self.config.scan.scan_dir@),
                strings_view(self.config.scan.extensions@),
                strings_view(self.config.scan.exclude_dirs@),
                strings_view(self.config.scan.exclude_files@),
                strings_view(self.config.scan.exclude_paths@),
                project_root@,
            ).len() > 0),
    {
        terms_dir_exists && index.scan(project_root, &self.config.scan, true).len() > 0
    }

    /// The errors of one file.
    fn file_errors_exec(
        path: &str,
        content: &str,
        terms: &[String],
        terms_chars: &Vec<Vec<char>>,
        sorted: &Vec<&str>,
        errors: &mut Vec<String>,
        words: &mut Vec<Vec<char>>,
    )
        requires
            vecs_view(terms_chars@) == strings_view(terms@),
        ensures
            strings_view(final(errors)@) == strings_view(old(errors)@) + file_errors(
                path@,
                content@,
                strings_view(terms@),
                strs_view(sorted@),
            ),
            vecs_view(final(words)@) == vecs_view(old(words)@) + backticked_terms_spec(content@),
    {
        let ghost e0 = strings_view(errors@);
        let ghost sv = strs_view(sorted@);
        let ghost m = unquoted_spec(content@, sv);
        let ghost tv = strings_view(terms@);
        let unq = find_unquoted_terms(content, sorted.as_slice());
        let ghost ue = m.map_values(
            |mm: (int, int, int)| unquoted_error(path@, newline_count(content@.take(mm.0)) + 1, sv[mm.2]),
        );
        proof {
            unquoted::lemma_unquoted_matches_sound_and_complete(content@, sv);
            assert forall|k: int| 0 <= k < m.len() implies sv[m[k].2] == sorted@[m[k].2]@ by {
                assert(unquoted::sound_match(content@, sv, spans::fenced_ranges(content@), spans::backtick_spans(content@), m[k]));
            }
        }
        let mut i: usize = 0;
        while i < unq.len()
            invariant
                i <= unq@.len(),
                unq@.len() == m.len(),
                ue.len() == m.len(),
                forall|k: int|
                    0 <= k < m.len() ==> (#[trigger] unq@[k]).0 == newline_count(content@.take(m[k].0))
                        + 1 && unq@[k].1@ == sv[m[k].2],
                forall|k: int| 0 <= k < m.len() ==> #[trigger] ue[k] == unquoted_error(path@, newline_count(content@.take(m[k].0)) + 1, sv[m[k].2]),
                strings_view(errors@) == e0 + ue.take(i as int),
            decreases unq@.len() - i,
        {
            let msg = unquoted_error_exec(path, unq[i].0, unq[i].1.as_str());
            let ghost old_e = strings_view(errors@);
            errors.push(msg);
            proof {
                assert(strings_view(errors@) == old_e.push(ue[i as int]));
                assert(ue.take(i + 1) == ue.take(i as int).push(ue[i as int]));
            }
            i = i + 1;
        }
        assert(ue.take(unq@.len() as int) == ue);
        let ghost e1 = strings_view(errors@);
        let bt = find_backticked_terms(content);
        let ghost bv = strings_view(bt@);
        let ghost w0 = vecs_view(words@);
        let mut j: usize = 0;
        assert(bv.take(0).len() == 0);
        while j < bt.len()
            invariant
                j <= bt@.len(),
                bv == strings_view(bt@),
                vecs_view(terms_chars@) == tv,
                strings_view(errors@) == e1 + unknown_errors(path@, bv.take(j as int), tv),
                vecs_view(words@) == w0 + bv.take(j as int),
            decreases bt@.len() - j,
        {
            proof {
                assert(bv.take(j + 1).drop_last() == bv.take(j as int));
                assert(bv.take(j + 1).last() == bt@[j as int]@);
            }
            let w = to_chars(bt[j].as_str());
            if !is_listed_exec(terms_chars, w.as_slice()) {
                let msg = unknown_error_exec(path, bt[j].as_str());
                let ghost old_e = strings_view(errors@);
                errors.push(msg);
                assert(strings_view(errors@) == old_e.push(unknown_error(path@, bt@[j as int]@)));
            }
            let ghost old_w = vecs_view(words@);
            words.push(w);
            assert(vecs_view(words@) == old_w.push(bt@[j as int]@));
            j = j + 1;
        }
        assert(bv.take(bt@.len() as int) == bv);
    }

    /// Checks Markdown texts against the term list: every listed term must be
    /// backtick-quoted where it occurs, every backtick-quoted word must be a
    /// listed term, and every listed term must be backtick-quoted somewhere.
    /// `files` holds each file's path and content. With no terms there is
    /// nothing to check.
    pub fn check_files(&self, terms: &[String], files: &[(String, String)]) -> (r: Result<(), String>)
        ensures
            terms@.len() == 0 ==> r is Ok,
            terms@.len() > 0 ==> ({
                let errs = check_errors(
                    files_view(files@),
                    strings_view(terms@),
                    sort_by_len_desc(strings_view(terms@)),
                    self.config.tech_files_dir@,
                );
                &&& errs.len() == 0 ==> r is Ok
                &&& errs.len() > 0 ==> (r matches Err(m) && m@ == "Tech check failures:\n"@ + join_lines(errs))
            }),
            terms@.len() > 0 ==> (r is Ok <==> check_passes(
                files_view(files@),
                strings_view(terms@),
                sort_by_len_desc(strings_view(terms@)),
            )),
    {
        proof {
            lemma_check_errors_empty(
                files_view(files@),
                strings_view(terms@),
                sort_by_len_desc(strings_view(terms@)),
                self.config.tech_files_dir@,
            );
        }
        if terms.len() == 0 {
            return Ok(());
        }
        let sorted = sorted_terms(terms);
        let terms_chars = strings_to_chars(terms);
        let ghost fv = files_view(files@);
        let ghost tv = strings_view(terms@);
        let ghost sv = strs_view(sorted@);
        let mut errors: Vec<String> = Vec::new();
        let mut words: Vec<Vec<char>> = Vec::new();
        let mut i: usize = 0;
        assert(fv.take(0).len() == 0);
        while i < files.len()
            invariant
                i <= files@.len(),
                fv == files_view(files@),
                tv == strings_view(terms@),
                vecs_view(terms_chars@) == tv,
                sv == strs_view(sorted@),
                strings_view(errors@) == files_errors(fv.take(i as int), tv, sv).0,
                vecs_view(words@) == files_errors(fv.take(i as int), tv, sv).1,
            decreases files@.len() - i,
        {
            proof {
                assert(fv.take(i + 1).drop_last() == fv.take(i as int));
                assert(fv.take(i + 1).last() == (files@[i as int].0@, files@[i as int].1@));
            }
            Self::file_errors_exec(
                files[i].0.as_str(),
                files[i].1.as_str(),
                terms,
                &terms_chars,
                &sorted,
                &mut errors,
                &mut words,
            );
            i = i + 1;
        }
        assert(fv.take(files@.len() as int) == fv);
        let ghost e1 = strings_view(errors@);
        let ghost wv = vecs_view(words@);
        let mut k: usize = 0;
        assert(tv.take(0).len() == 0);
        while k < terms.len()
            invariant
                k <= terms@.len(),
                tv == strings_view(terms@),
                wv == vecs_view(words@),
                strings_view(errors@) == e1 + unused_errors(tv.take(k as int), wv, self.config.tech_files_dir@),
            decreases terms@.len() - k,
        {
            proof {
                assert(tv.take(k + 1).drop_last() == tv.take(k as int));
                assert(tv.take(k + 1).last() == terms@[k as int]@);
            }
            let tc = to_chars(terms[k].as_str());
            if !is_listed_exec(&words, tc.as_slice()) {
                let msg = unused_error_exec(terms[k].as_str(), self.config.tech_files_dir.as_str());
                let ghost old_e = strings_view(errors@);
                errors.push(msg);
                assert(strings_view(errors@) == old_e.push(unused_error(terms@[k as int]@, self.config.tech_files_dir@)));
            }
            k = k + 1;
        }
        assert(tv.take(terms@.len() as int) == tv);
        if errors.len() == 0 {
            Ok(())
        } else {
            let mut m = String::new();
            append_str(&mut m, "Tech check failures:\n");
            let body = join_lines_exec(&errors);
            append_str(&mut m, body.as_str());
            Err(m)
        }
    }
}

} // verus!
