use vstd::prelude::*;
use vstd::utf8::encode_utf8;

use crate::model::{Artist, Artwork, Customer, Date, Order};

verus! {

broadcast use vstd::seq_lib::group_seq_properties;

/// `needle` occurs as a contiguous run of bytes within `hay`.
pub open spec fn contains_bytes(hay: Seq<u8>, needle: Seq<u8>) -> bool {
    exists|k: int|
        0 <= k && k + needle.len() <= hay.len() && #[trigger] hay.subrange(k, k + needle.len())
            == needle
}

/// `needle` occurs within `text`, comparing their UTF-8 encodings.
pub open spec fn text_contains(text: Seq<char>, needle: Seq<char>) -> bool {
    contains_bytes(encode_utf8(text), encode_utf8(needle))
}

/// Whether `needle` occurs within `text`.
pub fn contains_text(text: &str, needle: &str) -> (r: bool)
    ensures
        r == text_contains(text@, needle@),
{
    let hay = text.as_bytes();
    let pat = needle.as_bytes();
    let h = hay.len();
    let n = pat.len();
    assert(hay@ == encode_utf8(text@));
    assert(pat@ == encode_utf8(needle@));
    if n > h {
        proof {
            assert forall|k: int| 0 <= k && k + n <= h implies #[trigger] hay@.subrange(k, k + n)
                != pat@ by {}
        }
        return false;
    }
    let mut k: usize = 0;
    while k <= h - n
        invariant
            h == hay@.len(),
            n == pat@.len(),
            n <= h,
            hay@ == encode_utf8(text@),
            pat@ == encode_utf8(needle@),
            k <= h - n + 1,
            forall|kk: int| 0 <= kk < k ==> #[trigger] hay@.subrange(kk, kk + n) != pat@,
        decreases h - n + 1 - k,
    {
        let mut j: usize = 0;
        let mut same = true;
        while j < n
            invariant
                h == hay@.len(),
                n == pat@.len(),
                k + n <= h,
                j <= n,
                same ==> forall|jj: int| 0 <= jj < j ==> hay@[k + jj] == pat@[jj],
                !same ==> exists|jj: int| 0 <= jj < n && hay@[k + jj] != pat@[jj],
            decreases n - j,
        {
            if hay[k + j] != pat[j] {
                same = false;
            }
            j += 1;
        }
        if same {
            assert(hay@.subrange(k as int, k + n) =~= pat@);
            assert(contains_bytes(hay@, pat@));
            return true;
        }
        proof {
            let jj = choose|jj: int| 0 <= jj < n && hay@[k + jj] != pat@[jj];
            assert(hay@.subrange(k as int, k + n)[jj] != pat@[jj]);
        }
        k += 1;
    }
    proof {
        assert(!contains_bytes(hay@, pat@)) by {
            assert forall|kk: int| 0 <= kk && kk + n <= h implies #[trigger] hay@.subrange(kk, kk + n)
                != pat@ by {
                assert(kk < k);
            }
        }
    }
    false
}

/// The artists born strictly after `year`, in their given order.
pub fn artists_born_after(artists: &Vec<Artist>, year: i32) -> (r: Vec<Artist>)
    ensures
        r@ == artists@.filter(|a: Artist| a.birth_year > year),
{
    let mut out: Vec<Artist> = Vec::new();
    let mut i: usize = 0;
    while i < artists.len()
        invariant
            i <= artists@.len(),
            out@ == artists@.subrange(0, i as int).filter(|a: Artist| a.birth_year > year),
        decreases artists@.len() - i,
    {
        assert(artists@.subrange(0, i as int + 1) =~= artists@.subrange(0, i as int).push(
            artists@[i as int],
        ));
        proof {
            artists@.subrange(0, i as int).lemma_filter_push(artists@[i as int], |a: Artist| a.birth_year > year);
        }
        if artists[i].birth_year > year {
            out.push(artists[i].clone());
        }
        i += 1;
    }
    assert(artists@.subrange(0, i as int) =~= artists@);
    out
}

/// The customers whose address contains `needle`, in their given order.
pub fn customers_with_address_containing(customers: &Vec<Customer>, needle: &str) -> (r: Vec<
    Customer,
>)
    ensures
        r@ == customers@.filter(|c: Customer| text_contains(c.address@, needle@)),
{
    let mut out: Vec<Customer> = Vec::new();
    let mut i: usize = 0;
    while i < customers.len()
        invariant
            i <= customers@.len(),
            out@ == customers@.subrange(0, i as int).filter(
                |c: Customer| text_contains(c.address@, needle@),
            ),
        decreases customers@.len() - i,
    {
        assert(customers@.subrange(0, i as int + 1) =~= customers@.subrange(0, i as int).push(
            customers@[i as int],
        ));
        proof {
            customers@.subrange(0, i as int).lemma_filter_push(customers@[i as int], |c: Customer| text_contains(c.address@, needle@));
        }
        if contains_text(customers[i].address.as_str(), needle) {
            out.push(customers[i].clone());
        }
        i += 1;
    }
    assert(customers@.subrange(0, i as int) =~= customers@);
    out
}

/// The artworks whose type is exactly `art_type`, in their given order.
pub fn artworks_of_type(artworks: &Vec<Artwork>, art_type: &String) -> (r: Vec<Artwork>)
    ensures
        r@ == artworks@.filter(|a: Artwork| a.art_type@ == art_type@),
{
    let mut out: Vec<Artwork> = Vec::new();
    let mut i: usize = 0;
    while i < artworks.len()
        invariant
            i <= artworks@.len(),
            out@ == artworks@.subrange(0, i as int).filter(|a: Artwork| a.art_type@ == art_type@),
        decreases artworks@.len() - i,
    {
        assert(artworks@.subrange(0, i as int + 1) =~= artworks@.subrange(0, i as int).push(
            artworks@[i as int],
        ));
        proof {
            artworks@.subrange(0, i as int).lemma_filter_push(artworks@[i as int], |a: Artwork| a.art_type@ == art_type@);
        }
        if artworks[i].art_type == *art_type {
            out.push(artworks[i].clone());
        }
        i += 1;
    }
    assert(artworks@.subrange(0, i as int) =~= artworks@);
    out
}

/// The orders placed strictly after `cutoff`, in their given order.
pub fn orders_after(orders: &Vec<Order>, cutoff: &Date) -> (r: Vec<Order>)
    ensures
        r@ == orders@.filter(|o: Order| o.order_date.spec_is_after(*cutoff)),
{
    let mut out: Vec<Order> = Vec::new();
    let mut i: usize = 0;
    while i < orders.len()
        invariant
            i <= orders@.len(),
            out@ == orders@.subrange(0, i as int).filter(
                |o: Order| o.order_date.spec_is_after(*cutoff),
            ),
        decreases orders@.len() - i,
    {
        assert(orders@.subrange(0, i as int + 1) =~= orders@.subrange(0, i as int).push(
            orders@[i as int],
        ));
        proof {
            orders@.subrange(0, i as int).lemma_filter_push(orders@[i as int], |o: Order| o.order_date.spec_is_after(*cutoff));
        }
        if orders[i].order_date.is_after(cutoff) {
            out.push(orders[i].clone());
        }
        i += 1;
    }
    assert(orders@.subrange(0, i as int) =~= orders@);
    out
}

/// Lexicographic order of texts, comparing characters by code point; this is
/// also the byte order of their UTF-8 encodings.
pub open spec fn text_le(a: Seq<char>, b: Seq<char>) -> bool
    decreases a.len(),
{
    if a.len() == 0 {
        true
    } else if b.len() == 0 {
        false
    } else if a[0] != b[0] {
        (a[0] as u32) < (b[0] as u32)
    } else {
        text_le(a.drop_first(), b.drop_first())
    }
}

/// The default listing order of people: by last name, then by first name.
pub open spec fn name_le(last_a: Seq<char>, first_a: Seq<char>, last_b: Seq<char>, first_b: Seq<char>) -> bool {
    if last_a == last_b {
        text_le(first_a, first_b)
    } else {
        text_le(last_a, last_b)
    }
}

/// Every element of `s` comes no later than each element after it, under `le`.
pub open spec fn ordered_by<A>(s: Seq<A>, le: spec_fn(A, A) -> bool) -> bool {
    forall|i: int, j: int| 0 <= i < j < s.len() ==> le(#[trigger] s[i], #[trigger] s[j])
}

/// Filtering keeps the relative order of the elements it keeps.
pub proof fn lemma_filter_keeps_order<A>(s: Seq<A>, keep: spec_fn(A) -> bool, le: spec_fn(A, A) -> bool)
    requires
        ordered_by(s, le),
    ensures
        ordered_by(s.filter(keep), le),
    decreases s.len(),
{
    reveal(Seq::filter);
    if s.len() > 0 {
        let init = s.drop_last();
        assert(ordered_by(init, le)) by {
            assert forall|i: int, j: int| 0 <= i < j < init.len() implies le(#[trigger] init[i], #[trigger] init[j]) by {
                assert(init[i] == s[i] && init[j] == s[j]);
            }
        }
        lemma_filter_keeps_order(init, keep, le);
        let f = init.filter(keep);
        if keep(s.last()) {
            let g = f.push(s.last());
            assert forall|i: int, j: int| 0 <= i < j < g.len() implies le(#[trigger] g[i], #[trigger] g[j]) by {
                if j == g.len() - 1 {
                    assert(f.contains(f[i]));
                    init.lemma_filter_contains_rev(keep, f[i]);
                    let k = choose|k: int| 0 <= k < init.len() && init[k] == f[i];
                    assert(s[k] == init[k]);
                    assert(le(s[k], s[s.len() - 1]));
                } else {
                    assert(g[i] == f[i] && g[j] == f[j]);
                }
            }
        }
    }
}

/// Artists listed by last name then first name stay so ordered when filtered
/// by birth year.
pub proof fn lemma_born_after_keeps_name_order(artists: Seq<Artist>, year: i32)
    requires
        ordered_by(artists, |a: Artist, b: Artist| name_le(a.last_name@, a.first_name@, b.last_name@, b.first_name@)),
    ensures
        ordered_by(
            artists.filter(|a: Artist| a.birth_year > year),
            |a: Artist, b: Artist| name_le(a.last_name@, a.first_name@, b.last_name@, b.first_name@),
        ),
{
    lemma_filter_keeps_order(
        artists,
        |a: Artist| a.birth_year > year,
        |a: Artist, b: Artist| name_le(a.last_name@, a.first_name@, b.last_name@, b.first_name@),
    );
}

/// Customers listed by last name then first name stay so ordered when
/// filtered by address.
pub proof fn lemma_address_filter_keeps_name_order(customers: Seq<Customer>, needle: Seq<char>)
    requires
        ordered_by(customers, |a: Customer, b: Customer| name_le(a.last_name@, a.first_name@, b.last_name@, b.first_name@)),
    ensures
        ordered_by(
            customers.filter(|c: Customer| text_contains(c.address@, needle)),
            |a: Customer, b: Customer| name_le(a.last_name@, a.first_name@, b.last_name@, b.first_name@),
        ),
{
    lemma_filter_keeps_order(
        customers,
        |c: Customer| text_contains(c.address@, needle),
        |a: Customer, b: Customer| name_le(a.last_name@, a.first_name@, b.last_name@, b.first_name@),
    );
}

} // verus!
