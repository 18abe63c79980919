//! Planning of a batch web page download.

use vstd::prelude::*;
use crate::text::{decimal, lines, push_decimal, push_str, split_lines, views};

verus! {

/// The number of logical CPUs (`num_cpus::get`), which its documentation
/// says is at least 1. Nothing else is promised: it depends on the machine.
#[verifier::external_body]
fn cpu_count() -> (r: usize)
    ensures
        r >= 1,
{
    num_cpus::get()
}

/// Whether `n` is a count that `cpu_count` (`num_cpus::get`) can return.
pub closed spec fn cpu_count_reading(n: usize) -> bool {
    call_ensures(cpu_count, (), n)
}

/// How many downloads run at once: the given maximum, else one per CPU.
pub fn concurrency(max_threads: Option<usize>) -> (r: usize)
    ensures
        max_threads matches Some(n) ==> r == n,
        max_threads is None ==> r >= 1,
        max_threads is None ==> cpu_count_reading(r),
{
    match max_threads {
        Some(n) => n,
        None => cpu_count(),
    }
}

/// Downloads run at once up to the given maximum; with none given, up to the
/// number of logical CPUs that `num_cpus::get` reports, which is at least 1.
pub proof fn law_concurrency(max_threads: Option<usize>, r: usize)
    requires
        call_ensures(concurrency, (max_threads,), r),
    ensures
        max_threads matches Some(n) ==> r == n,
        max_threads is None ==> cpu_count_reading(r) && r >= 1,
{
}

/// A count of CPUs is at least 1.
pub proof fn lemma_cpu_count_reading_positive(n: usize)
    requires
        cpu_count_reading(n),
    ensures
        n >= 1,
{
}

/// The file that the `i`-th page is saved to: `page_i.html`.
pub open spec fn page_file_name_spec(i: nat) -> Seq<char> {
    "page_"@ + decimal(i) + ".html"@
}

/// The file that the `i`-th page is saved to.
pub fn page_file_name(i: usize) -> (r: String)
    ensures
        r@ == page_file_name_spec(i as nat),
{
    let mut s = String::from_str("page_");
    push_decimal(&mut s, i as u64);
    push_str(&mut s, ".html");
    s
}

/// One download: the URL and the file its page is saved to.
pub struct Download {
    pub url: String,
    pub file: String,
}

/// The downloads for a list of URLs, one per line: the `i`-th line is saved
/// to `page_i.html`.
pub fn download_plan(input: &str) -> (r: Vec<Download>)
    ensures
        r@.len() == lines(input@).len(),
        forall|i: int| 0 <= i < r@.len() ==> (#[trigger] r@[i]).url@ == lines(input@)[i]
            && r@[i].file@ == page_file_name_spec(i as nat),
{
    let urls = split_lines(input);
    let mut r: Vec<Download> = Vec::new();
    let mut i: usize = 0;
    assert(views(urls@).len() == urls@.len());
    while i < urls.len()
        invariant
            i <= urls@.len(),
            views(urls@) == lines(input@),
            r@.len() == i,
            forall|k: int| 0 <= k < i ==> (#[trigger] r@[k]).url@ == lines(input@)[k]
                && r@[k].file@ == page_file_name_spec(k as nat),
        decreases urls@.len() - i,
    {
        assert(views(urls@)[i as int] == urls@[i as int]@);
        let url = urls[i].clone();
        let file = page_file_name(i);
        r.push(Download { url, file });
        i = i + 1;
    }
    r
}

} // verus!
