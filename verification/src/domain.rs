//! The set of listed domain names and the suffix test that decides whether a
//! queried name falls under one of them.

use vstd::prelude::*;
use vstd::hash_set::StringHashSet;
use vstd::string::StringSliceAdditionalSpecFns;
use vstd::utf8::*;

verus! {

/// The byte that separates the labels of a domain name.
pub const LABEL_SEPARATOR: u8 = 0x2e;

/// The labels of `s`, split at every separator byte, exactly as `str::split('.')`
/// cuts them: `n` separators give `n + 1` labels, some of which may be empty.
pub open spec fn split_labels(s: Seq<u8>) -> Seq<Seq<u8>>
    decreases s.len(),
{
    if s.len() == 0 {
        seq![Seq::<u8>::empty()]
    } else {
        let prev = split_labels(s.drop_last());
        if s.last() == LABEL_SEPARATOR {
            prev.push(Seq::<u8>::empty())
        } else {
            prev.update(prev.len() - 1, prev.last().push(s.last()))
        }
    }
}

/// The labels joined with one separator between each two of them.
pub open spec fn join_labels(labels: Seq<Seq<u8>>) -> Seq<u8>
    decreases labels.len(),
{
    if labels.len() == 0 {
        Seq::<u8>::empty()
    } else if labels.len() == 1 {
        labels[0]
    } else {
        join_labels(labels.drop_last()) + seq![LABEL_SEPARATOR] + labels.last()
    }
}

/// The index one past the last label that the suffix search may use: the
/// final label (the top-level one) never takes part, and when the name ends
/// with a separator the empty label after it does not either.
pub open spec fn suffix_end(d: Seq<u8>) -> int {
    if d.len() > 0 && d.last() == LABEL_SEPARATOR {
        split_labels(d).len() - 2
    } else {
        split_labels(d).len() - 1
    }
}

/// The `i`-th candidate that the suffix search looks up: the labels from `i`
/// up to `suffix_end(d)`, joined again with separators.
pub open spec fn suffix_candidate(d: Seq<u8>, i: int) -> Seq<u8> {
    join_labels(split_labels(d).subrange(i, suffix_end(d)))
}

/// Whether the name whose UTF-8 bytes are `d` falls under one of the names in
/// `listed`: some candidate suffix of it is in the set.
pub open spec fn domain_listed(listed: Set<Seq<char>>, d: Seq<u8>) -> bool {
    exists|i: int|
        0 <= i < suffix_end(d) && #[trigger] listed.contains(decode_utf8(suffix_candidate(d, i)))
}

/// Where label `k` starts, when the separators stand at the positions `dots`.
pub open spec fn label_start(dots: Seq<usize>, k: int) -> int {
    if k == 0 {
        0
    } else {
        dots[k - 1] + 1
    }
}

/// `labels` is the split of `b` at the separator positions listed, in
/// increasing order, in `dots`.
#[verifier::opaque]
pub open spec fn labels_at(b: Seq<u8>, dots: Seq<usize>, labels: Seq<Seq<u8>>) -> bool {
    &&& labels.len() == dots.len() + 1
    &&& forall|k: int|
        0 <= k < dots.len() ==> {
            &&& label_start(dots, k) <= #[trigger] dots[k] < b.len()
            &&& b[dots[k] as int] == LABEL_SEPARATOR
            &&& labels[k] == b.subrange(label_start(dots, k), dots[k] as int)
        }
    &&& label_start(dots, dots.len() as int) <= b.len()
    &&& labels[dots.len() as int] == b.subrange(label_start(dots, dots.len() as int), b.len() as int)
    &&& forall|p: int|
        label_start(dots, dots.len() as int) <= p < b.len() ==> b[p] != LABEL_SEPARATOR
}

proof fn lemma_split_labels_nonempty(s: Seq<u8>)
    ensures
        split_labels(s).len() >= 1,
    decreases s.len(),
{
    if s.len() > 0 {
        lemma_split_labels_nonempty(s.drop_last());
    }
}

/// Reading a separator byte starts a new, empty label.
#[verifier::spinoff_prover]
proof fn lemma_labels_at_step_separator(b: Seq<u8>, j: usize, dots: Seq<usize>)
    requires
        0 <= j < b.len(),
        b[j as int] == LABEL_SEPARATOR,
        labels_at(b.take(j as int), dots, split_labels(b.take(j as int))),
    ensures
        labels_at(b.take(j + 1), dots.push(j), split_labels(b.take(j + 1))),
{
    reveal(labels_at);
    let s = b.take(j + 1);
    assert(s.drop_last() =~= b.take(j as int));
    let prev = split_labels(b.take(j as int));
    let n = dots.len() as int;
    let d2 = dots.push(j);
    let ls = split_labels(s);
    assert(ls == prev.push(Seq::<u8>::empty()));
    assert forall|k: int| 0 <= k < d2.len() implies {
        &&& label_start(d2, k) <= #[trigger] d2[k] < s.len()
        &&& s[d2[k] as int] == LABEL_SEPARATOR
        &&& ls[k] == s.subrange(label_start(d2, k), d2[k] as int)
    } by {
        assert(label_start(d2, k) == label_start(dots, k));
        if k < n {
            assert(s.subrange(label_start(d2, k), d2[k] as int) =~= b.take(j as int).subrange(
                label_start(dots, k),
                dots[k] as int,
            ));
        } else {
            assert(s.subrange(label_start(d2, k), d2[k] as int) =~= b.take(j as int).subrange(
                label_start(dots, n),
                j as int,
            ));
        }
    }
    assert(s.subrange(label_start(d2, d2.len() as int), s.len() as int) =~= Seq::<u8>::empty());
}

/// Reading any other byte extends the current label.
#[verifier::spinoff_prover]
proof fn lemma_labels_at_step_other(b: Seq<u8>, j: usize, dots: Seq<usize>)
    requires
        0 <= j < b.len(),
        b[j as int] != LABEL_SEPARATOR,
        labels_at(b.take(j as int), dots, split_labels(b.take(j as int))),
    ensures
        labels_at(b.take(j + 1), dots, split_labels(b.take(j + 1))),
{
    reveal(labels_at);
    let s = b.take(j + 1);
    assert(s.drop_last() =~= b.take(j as int));
    let prev = split_labels(b.take(j as int));
    let n = dots.len() as int;
    let ls = split_labels(s);
    assert(ls == prev.update(prev.len() - 1, prev.last().push(b[j as int])));
    assert forall|k: int| 0 <= k < dots.len() implies {
        &&& label_start(dots, k) <= #[trigger] dots[k] < s.len()
        &&& s[dots[k] as int] == LABEL_SEPARATOR
        &&& ls[k] == s.subrange(label_start(dots, k), dots[k] as int)
    } by {
        assert(s.subrange(label_start(dots, k), dots[k] as int) =~= b.take(j as int).subrange(
            label_start(dots, k),
            dots[k] as int,
        ));
    }
    assert(s.subrange(label_start(dots, n), s.len() as int) =~= b.take(j as int).subrange(
        label_start(dots, n),
        j as int,
    ).push(b[j as int]));
    assert forall|p: int| label_start(dots, n) <= p < s.len() implies s[p] != LABEL_SEPARATOR by {
        if p < j {
            assert(b.take(j as int)[p] == s[p]);
        }
    }
}

/// The facts that `labels_at` gives about one separator.
proof fn lemma_labels_at_dot(b: Seq<u8>, dots: Seq<usize>, labels: Seq<Seq<u8>>, k: int)
    requires
        labels_at(b, dots, labels),
        0 <= k < dots.len(),
    ensures
        labels.len() == dots.len() + 1,
        label_start(dots, k) <= dots[k] < b.len(),
        b[dots[k] as int] == LABEL_SEPARATOR,
        labels[k] == b.subrange(label_start(dots, k), dots[k] as int),
{
    reveal(labels_at);
}

/// Separators are listed in increasing order.
proof fn lemma_label_starts_increase(b: Seq<u8>, dots: Seq<usize>, labels: Seq<Seq<u8>>, i: int, k: int)
    requires
        labels_at(b, dots, labels),
        0 <= i <= k < dots.len(),
    ensures
        label_start(dots, i) <= label_start(dots, k),
    decreases k - i,
{
    if i < k {
        lemma_label_starts_increase(b, dots, labels, i, k - 1);
        lemma_labels_at_dot(b, dots, labels, k - 1);
    }
}

/// Joining consecutive labels gives back the stretch of bytes that they cover.
proof fn lemma_join_labels_range(b: Seq<u8>, dots: Seq<usize>, labels: Seq<Seq<u8>>, i: int, e: int)
    requires
        labels_at(b, dots, labels),
        0 <= i < e <= dots.len(),
    ensures
        join_labels(labels.subrange(i, e)) == b.subrange(label_start(dots, i), dots[e - 1] as int),
    decreases e - i,
{
    lemma_labels_at_dot(b, dots, labels, e - 1);
    if e == i + 1 {
        assert(labels.subrange(i, e) =~= seq![labels[i]]);
    } else {
        let k = e - 1;
        lemma_join_labels_range(b, dots, labels, i, k);
        lemma_labels_at_dot(b, dots, labels, k - 1);
        lemma_label_starts_increase(b, dots, labels, i, k - 1);
        let ls = labels.subrange(i, e);
        assert(ls.drop_last() =~= labels.subrange(i, k));
        assert(b.subrange(label_start(dots, i), dots[k] as int) =~= b.subrange(
            label_start(dots, i),
            dots[k - 1] as int,
        ) + seq![LABEL_SEPARATOR] + b.subrange(label_start(dots, k), dots[k] as int));
    }
}

/// What the split says of its final label, and where the last separator is
/// when the name ends with one.
proof fn lemma_labels_at_last(b: Seq<u8>, dots: Seq<usize>, labels: Seq<Seq<u8>>)
    requires
        labels_at(b, dots, labels),
    ensures
        labels.len() == dots.len() + 1,
        b.len() > 0 && b.last() == LABEL_SEPARATOR ==> dots.len() >= 1 && dots.last() == b.len() - 1,
{
    reveal(labels_at);
    if b.len() > 0 && b.last() == LABEL_SEPARATOR {
        let n = dots.len() as int;
        assert(!(label_start(dots, n) <= b.len() - 1));
        if n == 0 {
            assert(false);
        }
        assert(label_start(dots, n - 1) <= dots[n - 1] < b.len());
    }
}

proof fn lemma_labels_at_empty()
    ensures
        labels_at(Seq::<u8>::empty(), Seq::<usize>::empty(), split_labels(Seq::<u8>::empty())),
{
    reveal(labels_at);
    assert(Seq::<u8>::empty().subrange(0, 0) =~= Seq::<u8>::empty());
}

/// The positions of the separator bytes in `b`, in increasing order.
fn separator_positions(b: &[u8]) -> (dots: Vec<usize>)
    ensures
        labels_at(b@, dots@, split_labels(b@)),
{
    let mut dots: Vec<usize> = Vec::new();
    let mut j: usize = 0;
    proof {
        assert(b@.take(0) =~= Seq::<u8>::empty());
        lemma_labels_at_empty();
    }
    while j < b.len()
        invariant
            j <= b.len(),
            labels_at(b@.take(j as int), dots@, split_labels(b@.take(j as int))),
        decreases b.len() - j,
    {
        if b[j] == LABEL_SEPARATOR {
            proof {
                lemma_labels_at_step_separator(b@, j, dots@);
            }
            dots.push(j);
        } else {
            proof {
                lemma_labels_at_step_other(b@, j, dots@);
            }
        }
        j += 1;
    }
    proof {
        assert(b@.take(b@.len() as int) =~= b@);
    }
    dots
}

/// A separator byte in valid UTF-8 stands at a character boundary.
proof fn lemma_separator_is_boundary(bytes: Seq<u8>, p: int)
    requires
        valid_utf8(bytes),
        0 <= p < bytes.len(),
        bytes[p] == LABEL_SEPARATOR,
    ensures
        is_char_boundary(bytes, p),
{
    is_char_boundary_iff_not_is_continuation_byte(bytes, p);
}

/// In valid UTF-8 that starts with a separator, the next character starts at 1.
proof fn lemma_after_leading_separator(bytes: Seq<u8>)
    requires
        valid_utf8(bytes),
        bytes.len() > 0,
        bytes[0] == LABEL_SEPARATOR,
    ensures
        is_char_boundary(bytes, 1),
{
    let rest = pop_first_scalar(bytes);
    assert(length_of_first_scalar(bytes) == 1);
    assert(valid_utf8(rest));
    is_char_boundary_start_end_of_seq(rest);
}

/// A set of domain names, and the test whether a queried name lies under one.
pub struct DomainMap {
    domains: StringHashSet,
}

impl View for DomainMap {
    type V = Set<Seq<char>>;

    closed spec fn view(&self) -> Set<Seq<char>> {
        self.domains@
    }
}

impl DomainMap {
    /// An empty map.
    pub fn new() -> (map: DomainMap)
        ensures
            map@ == Set::<Seq<char>>::empty(),
    {
        DomainMap { domains: StringHashSet::new() }
    }

    /// Lists `domain` (as given, without any normalisation).
    pub fn add_domain(&mut self, domain: &str)
        ensures
            final(self)@ == old(self)@.insert(domain@),
    {
        self.domains.insert(domain.to_owned());
    }

    /// Whether `domain` lies under a listed name. The name is split at its
    /// dots; the last label (and, for a name that ends with a dot, the empty
    /// label after it) is dropped, and every run of the remaining labels that
    /// reaches up to the dropped ones is looked up, longest first.
    pub fn contains(&self, domain: &str) -> (found: bool)
        ensures
            found == domain_listed(self@, domain.spec_bytes()),
    {
        let bytes = domain.as_bytes();
        let ghost b = bytes@;
        let dots = separator_positions(bytes);
        let n = dots.len();
        let ends_with_separator = bytes.len() > 0 && bytes[bytes.len() - 1] == LABEL_SEPARATOR;
        proof {
            lemma_labels_at_last(b, dots@, split_labels(b));
        }
        let end = if ends_with_separator {
            n - 1
        } else {
            n
        };
        assert(end == suffix_end(b));
        if end == 0 {
            return false;
        }
        let stop = dots[end - 1];
        proof {
            encode_utf8_valid_utf8(domain@);
            lemma_labels_at_dot(b, dots@, split_labels(b), end - 1);
            lemma_separator_is_boundary(b, stop as int);
            valid_utf8_split(b, stop as int);
        }
        let (head, _) = domain.split_at(stop);
        let ghost hb = head.spec_bytes();
        assert(hb =~= b.subrange(0, stop as int));
        let mut i: usize = 0;
        while i < end
            invariant
                i <= end,
                b == domain.spec_bytes(),
                end == suffix_end(b),
                end <= dots@.len(),
                dots@.len() + 1 == split_labels(b).len(),
                labels_at(b, dots@, split_labels(b)),
                stop == dots[end - 1],
                hb == b.subrange(0, stop as int),
                hb == head.spec_bytes(),
                valid_utf8(hb),
                forall|k: int|
                    0 <= k < i ==> !(#[trigger] self@.contains(
                        decode_utf8(suffix_candidate(b, k)),
                    )),
            decreases end - i,
        {
            proof {
                lemma_join_labels_range(b, dots@, split_labels(b), i as int, end as int);
            }
            let candidate: &str = if i == 0 {
                head
            } else {
                let from = dots[i - 1];
                proof {
                    lemma_labels_at_dot(b, dots@, split_labels(b), i - 1);
                    lemma_label_starts_increase(b, dots@, split_labels(b), i as int, end - 1);
                    lemma_labels_at_dot(b, dots@, split_labels(b), end - 1);
                    lemma_separator_is_boundary(hb, from as int);
                    valid_utf8_split(hb, from as int);
                }
                let (_, rest) = head.split_at(from);
                proof {
                    assert(rest.spec_bytes() =~= b.subrange(from as int, stop as int));
                    lemma_after_leading_separator(rest.spec_bytes());
                }
                let (_, tail) = rest.split_at(1);
                assert(tail.spec_bytes() =~= b.subrange(from + 1, stop as int));
                tail
            };
            proof {
                assert(candidate.spec_bytes() == suffix_candidate(b, i as int));
                encode_utf8_decode_utf8(candidate@);
                assert(candidate@ == decode_utf8(suffix_candidate(b, i as int)));
            }
            if self.domains.contains(candidate) {
                assert(self@.contains(decode_utf8(suffix_candidate(b, i as int))));
                return true;
            }
            i += 1;
        }
        false
    }
}

/// Whether `s` holds no separator byte, i.e. is (at most) one label.
pub open spec fn is_single_label(s: Seq<u8>) -> bool {
    forall|p: int| 0 <= p < s.len() ==> s[p] != LABEL_SEPARATOR
}

proof fn lemma_split_single_label(l: Seq<u8>)
    requires
        is_single_label(l),
    ensures
        split_labels(l) == seq![l],
    decreases l.len(),
{
    if l.len() > 0 {
        lemma_split_single_label(l.drop_last());
        assert(l.drop_last().push(l.last()) =~= l);
        assert(seq![l.drop_last()].update(0, l) =~= seq![l]);
    } else {
        assert(l =~= Seq::<u8>::empty());
    }
}

/// Splitting at a separator splits the labels there too.
proof fn lemma_split_concat(a: Seq<u8>, c: Seq<u8>)
    ensures
        split_labels(a + seq![LABEL_SEPARATOR] + c) == split_labels(a) + split_labels(c),
    decreases c.len(),
{
    let whole = a + seq![LABEL_SEPARATOR] + c;
    lemma_split_labels_nonempty(a);
    if c.len() == 0 {
        assert(whole.drop_last() =~= a);
        assert(split_labels(a).push(Seq::<u8>::empty()) =~= split_labels(a) + seq![Seq::<u8>::empty()]);
    } else {
        lemma_split_concat(a, c.drop_last());
        lemma_split_labels_nonempty(c.drop_last());
        assert(whole.drop_last() =~= a + seq![LABEL_SEPARATOR] + c.drop_last());
        let pa = split_labels(a);
        let pc = split_labels(c.drop_last());
        if c.last() == LABEL_SEPARATOR {
            assert((pa + pc).push(Seq::<u8>::empty()) =~= pa + pc.push(Seq::<u8>::empty()));
        } else {
            let x = c.last();
            assert((pa + pc).update((pa + pc).len() - 1, (pa + pc).last().push(x)) =~= pa + pc.update(
                pc.len() - 1,
                pc.last().push(x),
            ));
        }
    }
}

proof fn lemma_join_extend_last(ls: Seq<Seq<u8>>, x: u8)
    requires
        ls.len() >= 1,
    ensures
        join_labels(ls.update(ls.len() - 1, ls.last().push(x))) == join_labels(ls).push(x),
{
    let up = ls.update(ls.len() - 1, ls.last().push(x));
    if ls.len() >= 2 {
        assert(up.drop_last() =~= ls.drop_last());
    }
}

/// Joining the labels of a name gives the name back.
proof fn lemma_join_split(s: Seq<u8>)
    ensures
        join_labels(split_labels(s)) == s,
    decreases s.len(),
{
    if s.len() == 0 {
    } else {
        let r = s.drop_last();
        lemma_join_split(r);
        lemma_split_labels_nonempty(r);
        if s.last() == LABEL_SEPARATOR {
            let ls = split_labels(r).push(Seq::<u8>::empty());
            assert(ls.drop_last() =~= split_labels(r));
            assert(r + seq![LABEL_SEPARATOR] + Seq::<u8>::empty() =~= s);
        } else {
            lemma_join_extend_last(split_labels(r), s.last());
            assert(r.push(s.last()) =~= s);
        }
    }
}

/// Listing more names never stops a name from being found.
pub proof fn law_listed_monotone(fewer: Set<Seq<char>>, more: Set<Seq<char>>, d: Seq<u8>)
    requires
        fewer.subset_of(more),
        domain_listed(fewer, d),
    ensures
        domain_listed(more, d),
{
    let i = choose|i: int|
        0 <= i < suffix_end(d) && #[trigger] fewer.contains(decode_utf8(suffix_candidate(d, i)));
    assert(more.contains(decode_utf8(suffix_candidate(d, i))));
}

/// An empty list finds nothing.
pub proof fn law_empty_lists_nothing(d: Seq<u8>)
    ensures
        !domain_listed(Set::<Seq<char>>::empty(), d),
{
}

/// A fully qualified name (one final dot) is found exactly when the same
/// name without the dot is.
pub proof fn law_trailing_dot(listed: Set<Seq<char>>, d: Seq<u8>)
    requires
        !(d.len() > 0 && d.last() == LABEL_SEPARATOR),
    ensures
        domain_listed(listed, d.push(LABEL_SEPARATOR)) == domain_listed(listed, d),
{
    let fq = d.push(LABEL_SEPARATOR);
    assert(fq.drop_last() =~= d);
    lemma_split_labels_nonempty(d);
    let ls = split_labels(d);
    assert(split_labels(fq) == ls.push(Seq::<u8>::empty()));
    assert(suffix_end(fq) == suffix_end(d));
    assert forall|i: int| 0 <= i < suffix_end(d) implies suffix_candidate(fq, i)
        == suffix_candidate(d, i) by {
        assert(ls.push(Seq::<u8>::empty()).subrange(i, suffix_end(d)) =~= ls.subrange(i, suffix_end(d)));
    }
    if domain_listed(listed, d) {
        let i = choose|i: int|
            0 <= i < suffix_end(d) && #[trigger] listed.contains(decode_utf8(suffix_candidate(d, i)));
        assert(listed.contains(decode_utf8(suffix_candidate(fq, i))));
    }
    if domain_listed(listed, fq) {
        let i = choose|i: int|
            0 <= i < suffix_end(fq) && #[trigger] listed.contains(decode_utf8(suffix_candidate(fq, i)));
        assert(listed.contains(decode_utf8(suffix_candidate(d, i))));
    }
}

/// A name that is found stays found under anything put in front of it with
/// a separator: every subdomain of a found name is found.
pub proof fn law_subdomain_listed(listed: Set<Seq<char>>, prefix: Seq<u8>, d: Seq<u8>)
    requires
        domain_listed(listed, d),
    ensures
        domain_listed(listed, prefix + seq![LABEL_SEPARATOR] + d),
{
    let sub = prefix + seq![LABEL_SEPARATOR] + d;
    lemma_split_concat(prefix, d);
    let lp = split_labels(prefix);
    let ls = split_labels(d);
    let m = lp.len() as int;
    let i = choose|i: int|
        0 <= i < suffix_end(d) && #[trigger] listed.contains(decode_utf8(suffix_candidate(d, i)));
    assert(d.len() > 0);
    assert(sub.last() == d.last());
    assert(split_labels(sub).len() == m + ls.len());
    assert(suffix_end(sub) == suffix_end(d) + m);
    assert((lp + ls).subrange(i + m, suffix_end(d) + m) =~= ls.subrange(i, suffix_end(d)));
    assert(suffix_candidate(sub, i + m) == suffix_candidate(d, i));
    assert(listed.contains(decode_utf8(suffix_candidate(sub, i + m))));
}

/// A listed name is found when it is asked for under a top-level label:
/// listing `name` makes `name.tld` match.
pub proof fn law_listed_name_under_top_label(listed: Set<Seq<char>>, name: Seq<u8>, top: Seq<u8>)
    requires
        listed.contains(decode_utf8(name)),
        is_single_label(top),
        top.len() > 0,
    ensures
        domain_listed(listed, name + seq![LABEL_SEPARATOR] + top),
{
    let q = name + seq![LABEL_SEPARATOR] + top;
    lemma_split_concat(name, top);
    lemma_split_single_label(top);
    lemma_split_labels_nonempty(name);
    let ls = split_labels(name);
    assert(split_labels(q) =~= ls + seq![top]);
    assert(q.last() == top.last());
    assert(suffix_end(q) == ls.len());
    assert((ls + seq![top]).subrange(0, ls.len() as int) =~= ls);
    lemma_join_split(name);
    assert(suffix_candidate(q, 0) == name);
    assert(listed.contains(decode_utf8(suffix_candidate(q, 0))));
}

/// `a` and `b` joined by one separator.
pub open spec fn dotted(a: Seq<u8>, b: Seq<u8>) -> Seq<u8> {
    a + seq![LABEL_SEPARATOR] + b
}

/// The name with one final separator taken off, if it ends with one.
pub open spec fn without_final_separator(d: Seq<u8>) -> Seq<u8> {
    if d.len() > 0 && d.last() == LABEL_SEPARATOR {
        d.drop_last()
    } else {
        d
    }
}

proof fn lemma_join_concat(a: Seq<Seq<u8>>, b: Seq<Seq<u8>>)
    requires
        a.len() >= 1,
        b.len() >= 1,
    ensures
        join_labels(a + b) == dotted(join_labels(a), join_labels(b)),
    decreases b.len(),
{
    if b.len() == 1 {
        assert((a + b).drop_last() =~= a);
        assert((a + b).last() == b[0]);
    } else {
        lemma_join_concat(a, b.drop_last());
        assert((a + b).drop_last() =~= a + b.drop_last());
        assert((a + b).last() == b.last());
        assert(dotted(join_labels(a), join_labels(b.drop_last())) + seq![LABEL_SEPARATOR] + b.last()
            =~= dotted(join_labels(a), join_labels(b.drop_last()) + seq![LABEL_SEPARATOR] + b.last()));
    }
}

/// Where the last separator of `c` is: either there is none, or `c` is some
/// `p` and a final separator-free label `t`.
proof fn lemma_last_separator(c: Seq<u8>) -> (split: Option<(Seq<u8>, Seq<u8>)>)
    ensures
        split is None ==> is_single_label(c),
        split matches Some((p, t)) ==> is_single_label(t) && c == dotted(p, t),
    decreases c.len(),
{
    if c.len() == 0 {
        None
    } else {
        let x = c.last();
        let rest = c.drop_last();
        if x == LABEL_SEPARATOR {
            assert(c =~= dotted(rest, Seq::<u8>::empty()));
            Some((rest, Seq::<u8>::empty()))
        } else {
            match lemma_last_separator(rest) {
                None => {
                    assert(c =~= rest.push(x));
                    None
                },
                Some((p, t)) => {
                    assert(c =~= dotted(p, t.push(x)));
                    Some((p, t.push(x)))
                },
            }
        }
    }
}

proof fn lemma_separator_in_dotted(a: Seq<u8>, b: Seq<u8>)
    ensures
        dotted(a, b)[a.len() as int] == LABEL_SEPARATOR,
        !is_single_label(dotted(a, b)),
{
    assert(dotted(a, b)[a.len() as int] == LABEL_SEPARATOR);
}

/// A name splits in one way only into a part and a separator-free last label.
proof fn lemma_dotted_unique(p: Seq<u8>, t: Seq<u8>, r: Seq<u8>, u: Seq<u8>)
    requires
        is_single_label(t),
        is_single_label(u),
        dotted(p, t) == dotted(r, u),
    ensures
        p == r,
        t == u,
{
    let c = dotted(p, t);
    let pd = p + seq![LABEL_SEPARATOR];
    let rd = r + seq![LABEL_SEPARATOR];
    assert(c == pd + t);
    assert(dotted(r, u) == rd + u);
    assert(c.len() == p.len() + 1 + t.len());
    assert(c.len() == r.len() + 1 + u.len());
    if p.len() < r.len() {
        lemma_separator_in_dotted(r, u);
        let k = r.len() as int;
        assert(k >= pd.len());
        assert((pd + t)[k] == t[k - pd.len()]);
        assert(t[k - pd.len()] != LABEL_SEPARATOR);
    } else if r.len() < p.len() {
        lemma_separator_in_dotted(p, t);
        let k = p.len() as int;
        assert(k >= rd.len());
        assert((rd + u)[k] == u[k - rd.len()]);
        assert(u[k - rd.len()] != LABEL_SEPARATOR);
    }
    assert(p =~= c.subrange(0, p.len() as int));
    assert(r =~= dotted(r, u).subrange(0, r.len() as int));
    assert(t =~= c.subrange(p.len() as int + 1, c.len() as int));
    assert(u =~= dotted(r, u).subrange(r.len() as int + 1, c.len() as int));
}

/// The candidates of `d` are the runs of labels of `d` with one final
/// separator taken off, up to but not including its last label.
proof fn lemma_candidates_of_core(d: Seq<u8>)
    ensures
        suffix_end(d) == split_labels(without_final_separator(d)).len() - 1,
        forall|i: int|
            0 <= i < suffix_end(d) ==> #[trigger] suffix_candidate(d, i) == join_labels(
                split_labels(without_final_separator(d)).subrange(
                    i,
                    split_labels(without_final_separator(d)).len() - 1,
                ),
            ),
{
    let c = without_final_separator(d);
    lemma_split_labels_nonempty(c);
    if d.len() > 0 && d.last() == LABEL_SEPARATOR {
        let ls = split_labels(c);
        assert(split_labels(d) == ls.push(Seq::<u8>::empty()));
        assert forall|i: int| 0 <= i < suffix_end(d) implies #[trigger] suffix_candidate(d, i)
            == join_labels(ls.subrange(i, ls.len() - 1)) by {
            assert(ls.push(Seq::<u8>::empty()).subrange(i, suffix_end(d)) =~= ls.subrange(
                i,
                ls.len() - 1,
            ));
        }
    }
}

/// What the lookup finds, said without labels: take one final separator
/// off the name; the name is found exactly when a listed name `r` is the
/// whole part before the last label (`r.t`), or the part of it after some
/// separator (`q.r.t`), where the last label `t` holds no separator.
/// A name without any separator is never found.
pub proof fn law_listed_exactly_label_suffixes(listed: Set<Seq<char>>, d: Seq<u8>)
    ensures
        domain_listed(listed, d) <==> (exists|r: Seq<u8>, t: Seq<u8>|
            is_single_label(t) && without_final_separator(d) == #[trigger] dotted(r, t)
                && listed.contains(decode_utf8(r))) || (exists|q: Seq<u8>, r: Seq<u8>, t: Seq<u8>|
            is_single_label(t) && without_final_separator(d) == #[trigger] dotted(dotted(q, r), t)
                && listed.contains(decode_utf8(r))),
{
    let c = without_final_separator(d);
    lemma_candidates_of_core(d);
    let first = exists|r: Seq<u8>, t: Seq<u8>|
        is_single_label(t) && c == #[trigger] dotted(r, t) && listed.contains(decode_utf8(r));
    let second = exists|q: Seq<u8>, r: Seq<u8>, t: Seq<u8>|
        is_single_label(t) && c == #[trigger] dotted(dotted(q, r), t) && listed.contains(decode_utf8(r));
    match lemma_last_separator(c) {
        None => {
            lemma_split_single_label(c);
            assert(suffix_end(d) == 0);
            if first {
                let (r, t) = choose|r: Seq<u8>, t: Seq<u8>|
                    is_single_label(t) && c == #[trigger] dotted(r, t) && listed.contains(decode_utf8(r));
                lemma_separator_in_dotted(r, t);
            }
            if second {
                let (q, r, t) = choose|q: Seq<u8>, r: Seq<u8>, t: Seq<u8>|
                    is_single_label(t) && c == #[trigger] dotted(dotted(q, r), t) && listed.contains(
                        decode_utf8(r),
                    );
                lemma_separator_in_dotted(dotted(q, r), t);
            }
        },
        Some((p, t)) => {
            lemma_split_concat(p, t);
            lemma_split_single_label(t);
            lemma_split_labels_nonempty(p);
            let lp = split_labels(p);
            let m = lp.len() as int;
            assert(split_labels(c) =~= lp + seq![t]);
            assert forall|i: int| 0 <= i < m implies #[trigger] suffix_candidate(d, i) == join_labels(
                lp.subrange(i, m),
            ) by {
                assert((lp + seq![t]).subrange(i, m) =~= lp.subrange(i, m));
            }
            if domain_listed(listed, d) {
                let i = choose|i: int|
                    0 <= i < suffix_end(d) && #[trigger] listed.contains(
                        decode_utf8(suffix_candidate(d, i)),
                    );
                if i == 0 {
                    assert(lp.subrange(0, m) =~= lp);
                    lemma_join_split(p);
                    assert(c == dotted(p, t));
                    assert(listed.contains(decode_utf8(p)));
                    assert(first);
                } else {
                    let a = lp.subrange(0, i);
                    let b = lp.subrange(i, m);
                    assert(lp =~= a + b);
                    lemma_join_concat(a, b);
                    lemma_join_split(p);
                    let q = join_labels(a);
                    let r = join_labels(b);
                    assert(p == dotted(q, r));
                    assert(c == dotted(dotted(q, r), t));
                    assert(listed.contains(decode_utf8(r)));
                    assert(second);
                }
            }
            if first {
                let (r, u) = choose|r: Seq<u8>, u: Seq<u8>|
                    is_single_label(u) && c == #[trigger] dotted(r, u) && listed.contains(decode_utf8(r));
                lemma_dotted_unique(p, t, r, u);
                assert(lp.subrange(0, m) =~= lp);
                lemma_join_split(p);
                assert(suffix_candidate(d, 0) == p);
                assert(listed.contains(decode_utf8(suffix_candidate(d, 0))));
            }
            if second {
                let (q, r, u) = choose|q: Seq<u8>, r: Seq<u8>, u: Seq<u8>|
                    is_single_label(u) && c == #[trigger] dotted(dotted(q, r), u) && listed.contains(
                        decode_utf8(r),
                    );
                lemma_dotted_unique(p, t, dotted(q, r), u);
                lemma_split_concat(q, r);
                lemma_split_labels_nonempty(q);
                lemma_split_labels_nonempty(r);
                let lq = split_labels(q);
                let lr = split_labels(r);
                assert(lp == lq + lr);
                let i = lq.len() as int;
                assert(lp.subrange(i, m) =~= lr);
                lemma_join_split(r);
                assert(suffix_candidate(d, i) == r);
                assert(listed.contains(decode_utf8(suffix_candidate(d, i))));
            }
        },
    }
}

} // verus!
