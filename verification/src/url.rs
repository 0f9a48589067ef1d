//! Builds a URL with query parameters. Parameters keep insertion order, so
//! a built URL is reproducible; adding a key again replaces its value.

use vstd::prelude::*;

use crate::strutil::{chars_to_string, push_str_chars, str_to_chars, spec_join, strs_view,
    join_strs, str_eq};

verus! {

/// Builds an URL with the given query parameters.
pub struct UrlBuilder {
    url: String,
    params: Vec<(String, String)>,
}

/// The mathematical value of a `UrlBuilder`.
pub ghost struct UrlBuilderView {
    pub url: Seq<char>,
    pub params: Seq<(Seq<char>, Seq<char>)>,
}

/// The views of a sequence of key-value pairs.
pub open spec fn pairs_view(s: Seq<(String, String)>) -> Seq<(Seq<char>, Seq<char>)> {
    s.map_values(|p: (String, String)| (p.0@, p.1@))
}

impl View for UrlBuilder {
    type V = UrlBuilderView;

    closed spec fn view(&self) -> UrlBuilderView {
        UrlBuilderView { url: self.url@, params: pairs_view(self.params@) }
    }
}

/// Some parameter in `params` has key `k`.
pub open spec fn has_key(params: Seq<(Seq<char>, Seq<char>)>, k: Seq<char>) -> bool {
    exists|i: int| 0 <= i < params.len() && (#[trigger] params[i]).0 == k
}

/// Every parameter keyed `k` replaced by `(k, v)`.
pub open spec fn replace_key(
    params: Seq<(Seq<char>, Seq<char>)>,
    k: Seq<char>,
    v: Seq<char>,
) -> Seq<(Seq<char>, Seq<char>)> {
    params.map_values(
        |p: (Seq<char>, Seq<char>)| if p.0 == k {
            (k, v)
        } else {
            p
        },
    )
}

/// One `key=value` item of the query string.
pub open spec fn pair_chars(p: (Seq<char>, Seq<char>)) -> Seq<char> {
    p.0 + seq!['='] + p.1
}

/// The `key=value` items of all parameters, in order.
pub open spec fn pairs_chars(params: Seq<(Seq<char>, Seq<char>)>) -> Seq<Seq<char>> {
    params.map_values(|p: (Seq<char>, Seq<char>)| pair_chars(p))
}

/// The URL a builder builds: the base URL, then `?`, then the `key=value`
/// items joined with `&`; the base URL alone when there is no parameter.
pub open spec fn spec_build_url(b: UrlBuilderView) -> Seq<char> {
    if b.params.len() == 0 {
        b.url
    } else {
        b.url + seq!['?'] + spec_join(pairs_chars(b.params), "&"@)
    }
}

impl UrlBuilder {
    /// Initializes a new UrlBuilder with the given url.
    pub fn new(url: &str) -> (r: Self)
        ensures
            r@.url == url@,
            r@.params == Seq::<(Seq<char>, Seq<char>)>::empty(),
    {
        let r = UrlBuilder { url: url.to_owned(), params: Vec::new() };
        proof {
            assert(r@.params =~= Seq::<(Seq<char>, Seq<char>)>::empty());
        }
        r
    }

    /// Adds a parameter to the url: a new key is appended, a key already
    /// present keeps its position and takes the new value.
    pub fn add_param(self, key: &str, value: &str) -> (r: Self)
        ensures
            r@.url == self@.url,
            r@.params == if has_key(self@.params, key@) {
                replace_key(self@.params, key@, value@)
            } else {
                self@.params.push((key@, value@))
            },
    {
        let ghost old_params = pairs_view(self.params@);
        let mut found = false;
        let mut out: Vec<(String, String)> = Vec::new();
        let mut i: usize = 0;
        while i < self.params.len()
            invariant
                0 <= i <= self.params@.len(),
                old_params == pairs_view(self.params@),
                old_params.len() == self.params@.len(),
                out@.len() == i,
                found <==> has_key(old_params.take(i as int), key@),
                pairs_view(out@) == replace_key(old_params.take(i as int), key@, value@),
            decreases self.params@.len() - i,
        {
            let ghost pre = pairs_view(out@);
            let k = self.params[i].0.clone();
            let v = self.params[i].1.clone();
            if str_eq(k.as_str(), key) {
                out.push((key.to_owned(), value.to_owned()));
                found = true;
                proof {
                    assert(old_params[i as int].0 == key@);
                    assert(old_params.take(i + 1)[i as int].0 == key@);
                    assert(has_key(old_params.take(i + 1), key@));
                }
            } else {
                out.push((k, v));
                proof {
                    assert(old_params[i as int].0 != key@);
                    if has_key(old_params.take(i + 1), key@) {
                        let w = choose|w: int|
                            0 <= w < old_params.take(i + 1).len() && (#[trigger] old_params.take(
                                i + 1,
                            )[w]).0 == key@;
                        assert(old_params.take(i as int)[w] == old_params.take(i + 1)[w] || w == i);
                    }
                }
            }
            i = i + 1;
            proof {
                assert(forall|t: int| 0 <= t < i - 1 ==> #[trigger] pairs_view(out@)[t] == pre[t]);
                assert(forall|t: int|
                    0 <= t < i - 1 ==> #[trigger] replace_key(old_params.take(i as int), key@,
                    value@)[t] == replace_key(old_params.take(i - 1), key@, value@)[t]);
                assert(pairs_view(out@)[i - 1] == replace_key(old_params.take(i as int), key@,
                    value@)[i - 1]);
                assert(pairs_view(out@) =~= replace_key(old_params.take(i as int), key@, value@));
                if has_key(old_params.take(i - 1), key@) {
                    let w = choose|w: int|
                        0 <= w < old_params.take(i - 1).len() && (#[trigger] old_params.take(
                            i - 1,
                        )[w]).0 == key@;
                    assert(old_params.take(i as int)[w].0 == key@);
                }
            }
        }
        proof {
            assert(old_params.take(old_params.len() as int) =~= old_params);
        }
        if !found {
            let ghost pre = pairs_view(out@);
            out.push((key.to_owned(), value.to_owned()));
            proof {
                assert(forall|t: int|
                    0 <= t < pre.len() ==> #[trigger] pairs_view(out@)[t] == pre[t]);
                assert(pairs_view(out@) =~= replace_key(old_params, key@, value@).push(
                    (key@, value@),
                ));
                assert(replace_key(old_params, key@, value@) =~= old_params);
            }
        }
        let r = UrlBuilder { url: self.url, params: out };
        r
    }

    /// Builds the final url.
    pub fn build(&self) -> (r: String)
        ensures
            r@ == spec_build_url(self@),
    {
        let mut out = str_to_chars(self.url.as_str());
        if self.params.len() > 0 {
            out.push('?');
            let mut items: Vec<String> = Vec::new();
            let mut i: usize = 0;
            let ghost ps = pairs_view(self.params@);
            while i < self.params.len()
                invariant
                    0 <= i <= self.params@.len(),
                    ps == pairs_view(self.params@),
                    ps.len() == self.params@.len(),
                    items@.len() == i,
                    strs_view(items@) == pairs_chars(ps.take(i as int)),
                decreases self.params@.len() - i,
            {
                let ghost pre = strs_view(items@);
                let mut item = str_to_chars(self.params[i].0.as_str());
                item.push('=');
                push_str_chars(&mut item, self.params[i].1.as_str());
                proof {
                    assert(item@ =~= pair_chars(ps[i as int]));
                }
                items.push(chars_to_string(&item));
                i = i + 1;
                proof {
                    assert(forall|t: int|
                        0 <= t < i - 1 ==> #[trigger] strs_view(items@)[t] == pre[t]);
                    assert(forall|t: int|
                        0 <= t < i - 1 ==> #[trigger] pairs_chars(ps.take(i as int))[t]
                            == pairs_chars(ps.take(i - 1))[t]);
                    assert(strs_view(items@)[i - 1] == pairs_chars(ps.take(i as int))[i - 1]);
                    assert(strs_view(items@) =~= pairs_chars(ps.take(i as int)));
                }
            }
            proof {
                assert(ps.take(ps.len() as int) =~= ps);
            }
            let mut joined = join_strs(&items, "&");
            out.append(&mut joined);
            proof {
                assert(out@ =~= spec_build_url(self@));
            }
        } else {
            proof {
                assert(out@ =~= spec_build_url(self@));
            }
        }
        chars_to_string(&out)
    }
}

} // verus!
