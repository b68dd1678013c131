use crate::error::Error;
use vstd::prelude::*;
use vstd::string::StrSliceExecFns;

verus! {

/// A decimal digit.
pub open spec fn is_digit(c: char) -> bool {
    '0' <= c && c <= '9'
}

/// Every character is a decimal digit.
pub open spec fn all_digits(s: Seq<char>) -> bool {
    forall|i: int| 0 <= i < s.len() ==> is_digit(#[trigger] s[i])
}

/// The number whose decimal digits, most significant first, are `s`.
pub open spec fn digits_value(s: Seq<char>) -> int
    decreases s.len(),
{
    if s.len() == 0 {
        0
    } else {
        digits_value(s.drop_last()) * 10 + (s.last() as int - '0' as int)
    }
}

/// The number a text denotes as an unsigned machine integer, the way
/// `usize::from_str` reads it: an optional `+`, then one or more decimal
/// digits whose value fits in a `usize`. `None` for any other text.
pub open spec fn usize_of_text(s: Seq<char>) -> Option<usize> {
    let d = if s.len() > 0 && s[0] == '+' {
        s.drop_first()
    } else {
        s
    };
    if d.len() > 0 && all_digits(d) && digits_value(d) <= usize::MAX {
        Some(digits_value(d) as usize)
    } else {
        None
    }
}

/// The pieces of `s` between commas, in order (one empty piece for an
/// empty text).
pub open spec fn comma_pieces(s: Seq<char>) -> Seq<Seq<char>>
    decreases s.len(),
{
    if s.len() == 0 {
        seq![Seq::<char>::empty()]
    } else {
        let rest = comma_pieces(s.drop_last());
        if s.last() == ',' {
            rest.push(Seq::<char>::empty())
        } else {
            rest.update(rest.len() - 1, rest.last().push(s.last()))
        }
    }
}

/// The numbers of a comma-separated list, or `None` if a piece is not a
/// number.
pub open spec fn numbers_of_list(s: Seq<char>) -> Option<Seq<usize>> {
    let pieces = comma_pieces(s);
    if forall|i: int| 0 <= i < pieces.len() ==> (#[trigger] usize_of_text(pieces[i])) is Some {
        Some(pieces.map_values(|p: Seq<char>| usize_of_text(p)->Some_0))
    } else {
        None
    }
}

/// There is always at least one piece.
pub proof fn lemma_comma_pieces_len(s: Seq<char>)
    ensures
        comma_pieces(s).len() >= 1,
    decreases s.len(),
{
    if s.len() > 0 {
        lemma_comma_pieces_len(s.drop_last());
    }
}

/// The value of the digits read so far, extended by one more digit.
proof fn lemma_digits_value_push(s: Seq<char>, c: char)
    ensures
        digits_value(s.push(c)) == digits_value(s) * 10 + (c as int - '0' as int),
{
    assert(s.push(c).drop_last() =~= s);
}

/// A run of digits has a value of at least zero.
proof fn lemma_digits_value_nonneg(s: Seq<char>)
    requires
        all_digits(s),
    ensures
        digits_value(s) >= 0,
    decreases s.len(),
{
    if s.len() > 0 {
        assert(all_digits(s.drop_last())) by {
            assert forall|i: int| 0 <= i < s.drop_last().len() implies is_digit(
                #[trigger] s.drop_last()[i],
            ) by {
                assert(s.drop_last()[i] == s[i]);
            }
        }
        lemma_digits_value_nonneg(s.drop_last());
        assert(is_digit(s[s.len() - 1]));
    }
}

/// Reads a piece of a list as a number (see `usize_of_text`).
pub fn parse_usize_piece(piece: &Vec<char>) -> (r: Option<usize>)
    ensures
        r == usize_of_text(piece@),
{
    let n = piece.len();
    let start: usize = if n > 0 && piece[0] == '+' {
        1
    } else {
        0
    };
    let ghost d = piece@.skip(start as int);
    proof {
        if n > 0 && piece@[0] == '+' {
            assert(d =~= piece@.drop_first());
        } else {
            assert(d =~= piece@);
        }
    }
    if start >= n {
        return None;
    }
    let mut value: usize = 0;
    let mut i: usize = start;
    proof {
        assert(piece@.subrange(start as int, start as int) =~= Seq::<char>::empty());
    }
    while i < n
        invariant
            n == piece@.len(),
            start <= i <= n,
            d == piece@.skip(start as int),
            n > 0 && piece@[0] == '+' ==> d == piece@.drop_first(),
            !(n > 0 && piece@[0] == '+') ==> d == piece@,
            all_digits(piece@.subrange(start as int, i as int)),
            value == digits_value(piece@.subrange(start as int, i as int)),
        decreases n - i,
    {
        let c = piece[i];
        let ghost prefix = piece@.subrange(start as int, i as int);
        proof {
            assert(piece@.subrange(start as int, i + 1) =~= prefix.push(c));
            lemma_digits_value_push(prefix, c);
        }
        if !('0' <= c && c <= '9') {
            proof {
                assert(d[i - start] == c);
            }
            return None;
        }
        let digit: usize = (c as u32 - '0' as u32) as usize;
        let shifted = match value.checked_mul(10) {
            Some(v) => v,
            None => {
                proof {
                    lemma_digits_value_grows(piece@, start as int, i as int + 1, n as int);
                }
                return None;
            },
        };
        value = match shifted.checked_add(digit) {
            Some(v) => v,
            None => {
                proof {
                    lemma_digits_value_grows(piece@, start as int, i as int + 1, n as int);
                }
                return None;
            },
        };
        proof {
            assert(all_digits(piece@.subrange(start as int, i + 1))) by {
                assert forall|k: int| 0 <= k < i + 1 - start implies is_digit(
                    #[trigger] piece@.subrange(start as int, i + 1)[k],
                ) by {
                    if k < i - start {
                        assert(piece@.subrange(start as int, i + 1)[k] == prefix[k]);
                    }
                }
            }
        }
        i = i + 1;
    }
    proof {
        assert(piece@.subrange(start as int, n as int) =~= d);
    }
    Some(value)
}

/// A text with a prefix of digits too large for a `usize` is no number:
/// either a later character is not a digit, or the whole value is larger
/// still.
proof fn lemma_digits_value_grows(s: Seq<char>, start: int, i: int, n: int)
    requires
        0 <= start < i <= n == s.len(),
        all_digits(s.subrange(start, i - 1)),
        is_digit(s[i - 1]),
        digits_value(s.subrange(start, i)) > usize::MAX,
    ensures
        !(all_digits(s.skip(start)) && digits_value(s.skip(start)) <= usize::MAX),
    decreases n - i,
{
    if all_digits(s.skip(start)) {
        assert(all_digits(s.subrange(start, i))) by {
            assert forall|k: int| 0 <= k < i - start implies is_digit(
                #[trigger] s.subrange(start, i)[k],
            ) by {
                assert(s.subrange(start, i)[k] == s.skip(start)[k]);
            }
        }
        if i == n {
            assert(s.subrange(start, i) =~= s.skip(start));
        } else {
            let next = s.subrange(start, i + 1);
            assert(next =~= s.subrange(start, i).push(s[i]));
            lemma_digits_value_push(s.subrange(start, i), s[i]);
            assert(is_digit(s[i])) by {
                assert(s.skip(start)[i - start] == s[i]);
            }
            lemma_digits_value_nonneg(s.subrange(start, i));
            lemma_digits_value_grows(s, start, i + 1, n);
        }
    }
}

/// Reads a comma-separated list of numbers, as given in a request; no list
/// is an empty one. An error if a piece is not a number.
pub fn parse_usize_vec(items_string_or: Option<String>) -> (r: Result<Vec<usize>, Error>)
    ensures
        items_string_or is None ==> (r matches Ok(v) && v@.len() == 0),
        items_string_or matches Some(s) ==> match numbers_of_list(s@) {
            Some(ns) => r matches Ok(v) && v@ == ns,
            None => r matches Err(e) && e.message@ == "Unable to parse items"@,
        },
{
    let items_string = match items_string_or {
        Some(items_string) => items_string,
        None => return Ok(Vec::new()),
    };
    let text = items_string.as_str();
    let ghost s = text@;
    let n = text.unicode_len();
    let mut items: Vec<usize> = Vec::new();
    let mut piece: Vec<char> = Vec::new();
    let mut i: usize = 0;
    proof {
        assert(s.take(0) =~= Seq::<char>::empty());
        assert(comma_pieces(Seq::<char>::empty()) == seq![Seq::<char>::empty()]);
    }
    while i < n
        invariant
            n == s.len(),
            s == text@,
            items_string_or matches Some(x) && x@ == s,
            i <= n,
            comma_pieces(s.take(i as int)).len() == items@.len() + 1,
            comma_pieces(s.take(i as int)).last() == piece@,
            forall|k: int|
                0 <= k < items@.len() ==> usize_of_text(#[trigger] comma_pieces(
                    s.take(i as int),
                )[k]) == Some(items@[k]),
        decreases n - i,
    {
        let c = text.get_char(i);
        let ghost before = comma_pieces(s.take(i as int));
        proof {
            assert(s.take(i + 1).drop_last() =~= s.take(i as int));
            assert(s.take(i + 1).last() == c);
        }
        if c == ',' {
            match parse_usize_piece(&piece) {
                Some(item) => items.push(item),
                None => {
                    proof {
                        let after = comma_pieces(s.take(i + 1));
                        assert(after == before.push(Seq::<char>::empty()));
                        assert(after[items@.len() as int] == piece@);
                        lemma_pieces_prefix(s, i as int + 1);
                        assert(comma_pieces(s)[items@.len() as int] == piece@);
                        assert(usize_of_text(comma_pieces(s)[items@.len() as int]) is None);
                    }
                    return Err(Error::new("Unable to parse items"));
                },
            }
            piece = Vec::new();
            proof {
                let after = comma_pieces(s.take(i + 1));
                assert(after == before.push(Seq::<char>::empty()));
                assert forall|k: int| 0 <= k < items@.len() implies usize_of_text(
                    #[trigger] after[k],
                ) == Some(items@[k]) by {
                    assert(after[k] == before[k]);
                }
            }
        } else {
            piece.push(c);
            proof {
                let after = comma_pieces(s.take(i + 1));
                assert(after == before.update(before.len() - 1, before.last().push(c)));
                assert forall|k: int| 0 <= k < items@.len() implies usize_of_text(
                    #[trigger] after[k],
                ) == Some(items@[k]) by {
                    assert(after[k] == before[k]);
                }
            }
        }
        i = i + 1;
    }
    proof {
        assert(s.take(n as int) =~= s);
    }
    match parse_usize_piece(&piece) {
        Some(item) => items.push(item),
        None => {
            return Err(Error::new("Unable to parse items"));
        },
    }
    proof {
        let pieces = comma_pieces(s);
        assert(forall|k: int| 0 <= k < pieces.len() ==> (#[trigger] usize_of_text(pieces[k])) is Some) by {
            assert forall|k: int| 0 <= k < pieces.len() implies (#[trigger] usize_of_text(
                pieces[k],
            )) is Some by {
                if k < pieces.len() - 1 {
                    assert(usize_of_text(pieces[k]) == Some(items@[k]));
                }
            }
        }
        let mapped = pieces.map_values(|p: Seq<char>| usize_of_text(p)->Some_0);
        assert forall|k: int| 0 <= k < pieces.len() implies items@[k] == #[trigger] mapped[k] by {
            if k < pieces.len() - 1 {
                assert(usize_of_text(pieces[k]) == Some(items@[k]));
            }
        }
        assert(items@ =~= mapped);
    }
    Ok(items)
}

/// The pieces of a prefix that ends with a comma are the first pieces of
/// the whole text.
proof fn lemma_pieces_prefix(s: Seq<char>, i: int)
    requires
        0 <= i <= s.len(),
    ensures
        comma_pieces(s.take(i)).len() <= comma_pieces(s).len(),
        forall|k: int|
            0 <= k < comma_pieces(s.take(i)).len() - 1 ==> #[trigger] comma_pieces(s.take(i))[k]
                == comma_pieces(s)[k],
    decreases s.len() - i,
{
    if i < s.len() {
        lemma_pieces_prefix(s, i + 1);
        let a = comma_pieces(s.take(i));
        let b = comma_pieces(s.take(i + 1));
        assert(s.take(i + 1).drop_last() =~= s.take(i));
        lemma_comma_pieces_len(s.take(i));
        assert forall|k: int| 0 <= k < a.len() - 1 implies #[trigger] a[k] == comma_pieces(s)[k] by {
            assert(b[k] == a[k]);
        }
    } else {
        assert(s.take(i) =~= s);
    }
}

/// What a request for an unknown path is answered with.
#[derive(Clone, Copy, PartialEq, Eq, Structural, Debug)]
pub enum NotFoundPage {
    /// An unknown path of the API: a "not found" error.
    ApiPath,
    /// The client's script bundle.
    JavaScriptBundle,
    /// The site's icon.
    Favicon,
    /// The client's page, which routes the path itself.
    Page,
}

/// The text after the last `/` of a path (all of it if there is none).
pub open spec fn last_segment(path: Seq<char>) -> Seq<char>
    decreases path.len(),
{
    if path.len() == 0 || path.last() == '/' {
        Seq::empty()
    } else {
        last_segment(path.drop_last()).push(path.last())
    }
}

/// The path without its leading `/` characters.
pub open spec fn strip_slashes(path: Seq<char>) -> Seq<char>
    decreases path.len(),
{
    if path.len() > 0 && path[0] == '/' {
        strip_slashes(path.drop_first())
    } else {
        path
    }
}

/// The first non-empty segment of the path, between `/` characters, is
/// `word` (a word without `/`).
pub open spec fn first_segment_is(path: Seq<char>, word: Seq<char>) -> bool {
    let rest = strip_slashes(path);
    &&& rest.len() >= word.len()
    &&& rest.take(word.len() as int) == word
    &&& (rest.len() == word.len() || rest[word.len() as int] == '/')
}

/// The answer to a request for an unknown path: an API error under `api`,
/// else the script bundle or the icon when the last segment names them,
/// else the client's page.
pub open spec fn not_found_page(path: Seq<char>) -> NotFoundPage {
    if first_segment_is(path, "api"@) {
        NotFoundPage::ApiPath
    } else if last_segment(path) == "bundle.js"@ {
        NotFoundPage::JavaScriptBundle
    } else if last_segment(path) == "favicon.ico"@ {
        NotFoundPage::Favicon
    } else {
        NotFoundPage::Page
    }
}

/// The characters of `text` from `start` on begin with `word`.
fn text_matches_at(text: &str, start: usize, word: &str) -> (b: bool)
    requires
        start <= text@.len(),
    ensures
        b == (start + word@.len() <= text@.len() && text@.subrange(
            start as int,
            start + word@.len(),
        ) == word@),
{
    let n = text.unicode_len();
    let m = word.unicode_len();
    if m > n - start {
        return false;
    }
    let mut i: usize = 0;
    while i < m
        invariant
            n == text@.len(),
            m == word@.len(),
            start + m <= n,
            i <= m,
            forall|k: int| 0 <= k < i ==> text@[start + k] == #[trigger] word@[k],
        decreases m - i,
    {
        if text.get_char(start + i) != word.get_char(i) {
            proof {
                assert(text@.subrange(start as int, start + m)[i as int] == text@[start + i]);
            }
            return false;
        }
        i = i + 1;
    }
    proof {
        assert(text@.subrange(start as int, start + m) =~= word@);
    }
    true
}

/// Stripping the leading slashes of a path whose first `j` characters are
/// slashes is stripping those of the rest.
proof fn lemma_strip_slashes(path: Seq<char>, j: int)
    requires
        0 <= j <= path.len(),
        forall|k: int| 0 <= k < j ==> path[k] == '/',
    ensures
        strip_slashes(path) == strip_slashes(path.skip(j)),
    decreases j,
{
    if j > 0 {
        assert(path.drop_first().skip(j - 1) =~= path.skip(j));
        lemma_strip_slashes(path.drop_first(), j - 1);
    } else {
        assert(path.skip(0) =~= path);
    }
}

/// The last segment of a path is what follows its last `/`.
proof fn lemma_last_segment(path: Seq<char>, k: int)
    requires
        0 <= k <= path.len(),
        k == 0 || path[k - 1] == '/',
        forall|m: int| k <= m < path.len() ==> path[m] != '/',
    ensures
        last_segment(path) == path.skip(k),
    decreases path.len() - k,
{
    if path.len() > k {
        let p = path.drop_last();
        lemma_last_segment(p, k);
        assert(p.skip(k).push(path.last()) =~= path.skip(k));
    } else {
        if path.len() > 0 {
            assert(path.last() == '/');
        }
        assert(path.skip(k) =~= Seq::<char>::empty());
    }
}

/// Which answer a request for an unknown path gets (see `not_found_page`).
pub fn not_found_page_of(path: &str) -> (page: NotFoundPage)
    ensures
        page == not_found_page(path@),
{
    let n = path.unicode_len();
    let mut j: usize = 0;
    while j < n && path.get_char(j) == '/'
        invariant
            n == path@.len(),
            j <= n,
            forall|k: int| 0 <= k < j ==> path@[k] == '/',
        decreases n - j,
    {
        j = j + 1;
    }
    proof {
        lemma_strip_slashes(path@, j as int);
        if j < n {
            assert(path@.skip(j as int)[0] == path@[j as int]);
        }
    }
    let api = "api";
    let word_len = api.unicode_len();
    let is_api = text_matches_at(path, j, api) && (j + word_len == n || path.get_char(j + word_len)
        == '/');
    proof {
        let rest = path@.skip(j as int);
        assert(strip_slashes(path@) == rest);
        if j + word_len <= n {
            assert(rest.take(word_len as int) =~= path@.subrange(j as int, j + word_len));
            if j + word_len < n {
                assert(rest[word_len as int] == path@[j + word_len]);
            }
        }
        if first_segment_is(path@, api@) {
            assert(rest.take(word_len as int) =~= path@.subrange(j as int, j + word_len));
        }
    }
    if is_api {
        return NotFoundPage::ApiPath;
    }
    let mut k: usize = n;
    while k > 0 && path.get_char(k - 1) != '/'
        invariant
            n == path@.len(),
            k <= n,
            forall|m: int| k <= m < n ==> path@[m] != '/',
        decreases k,
    {
        k = k - 1;
    }
    proof {
        lemma_last_segment(path@, k as int);
    }
    let bundle = "bundle.js";
    let favicon = "favicon.ico";
    let last_len = n - k;
    let is_bundle = last_len == bundle.unicode_len() && text_matches_at(path, k, bundle);
    let is_favicon = last_len == favicon.unicode_len() && text_matches_at(path, k, favicon);
    proof {
        let last = path@.skip(k as int);
        assert(last_segment(path@) == last);
        assert(path@.subrange(k as int, n as int) =~= last);
    }
    if is_bundle {
        NotFoundPage::JavaScriptBundle
    } else if is_favicon {
        NotFoundPage::Favicon
    } else {
        NotFoundPage::Page
    }
}

/// The message for an unknown path of the API.
pub fn api_not_found_message(path: &str) -> (m: String)
    ensures
        m@ == "404 - API path '"@ + path@ + "' does not exist!"@,
{
    let mut m = String::from_str("404 - API path '");
    m.append(path);
    m.append("' does not exist!");
    m
}

} // verus!
