//! The `Set-Cookie` header.

use vstd::prelude::*;
use vstd::string::StringSliceAdditionalSpecFns;

use crate::error::{Error, ErrorKind};
use crate::header::Header;
use crate::text::{
    ascii_to_string, check_visible_ascii, is_ascii, is_visible_ascii, lemma_visible_is_ascii,
    push_all, trim, trim_bytes,
};
use crate::util::{is_valid_value, models, ToValues, Values};

verus! {

/// `Set-Cookie` header: the cookies that a server sends to a user agent,
/// one raw entry for each. The header is never folded into one entry, since
/// a cookie may hold a comma.
#[derive(Clone, PartialEq, Debug)]
pub struct SetCookie(pub Vec<String>);

/// The cookies among the raw entries: every entry that is visible ASCII,
/// trimmed; the others are passed over.
pub open spec fn cookies_of(entries: Seq<Seq<u8>>) -> Seq<Seq<u8>>
    decreases entries.len(),
{
    if entries.len() == 0 {
        Seq::empty()
    } else {
        let cookies = cookies_of(entries.drop_last());
        if is_visible_ascii(entries.last()) {
            cookies.push(trim(entries.last()))
        } else {
            cookies
        }
    }
}

/// Number of texts at the front that a header value can hold.
pub open spec fn leading_valid(texts: Seq<Seq<u8>>) -> nat
    decreases texts.len(),
{
    if texts.len() > 0 && is_valid_value(texts[0]) {
        1 + leading_valid(texts.drop_first())
    } else {
        0
    }
}

/// Every text is one that a header value can hold.
pub open spec fn all_valid(texts: Seq<Seq<u8>>) -> bool {
    forall|i: int| 0 <= i < texts.len() ==> is_valid_value(#[trigger] texts[i])
}

/// A trimmed text is made of bytes of the text.
proof fn lemma_trim_visible(s: Seq<u8>)
    requires
        is_visible_ascii(s),
    ensures
        is_ascii(trim(s)),
{
    crate::text::lemma_leading_whitespace_bound(s);
    let a = crate::text::trim_start(s);
    crate::text::lemma_trailing_whitespace_bound(a);
    lemma_visible_is_ascii(s);
    assert forall|i: int| 0 <= i < trim(s).len() implies #[trigger] trim(s)[i] < 128 by {
        assert(trim(s)[i] == s[i + crate::text::leading_whitespace(s)]);
    }
}

impl Header for SetCookie {
    type Model = Seq<Seq<u8>>;

    open spec fn model(&self) -> Seq<Seq<u8>> {
        models(self.0@)
    }

    open spec fn name_text() -> Seq<u8> {
        "set-cookie".spec_bytes()
    }

    /// Absent where there is no entry; an invalid value where no entry is
    /// visible ASCII.
    open spec fn decoded(entries: Seq<Seq<u8>>) -> Result<Option<Seq<Seq<u8>>>, ErrorKind> {
        if entries.len() == 0 {
            Ok(None)
        } else if cookies_of(entries).len() == 0 {
            Err(ErrorKind::InvalidValue)
        } else {
            Ok(Some(cookies_of(entries)))
        }
    }

    open spec fn taken(entries: Seq<Seq<u8>>) -> nat {
        entries.len()
    }

    open spec fn encoded(m: Seq<Seq<u8>>) -> Option<Seq<Seq<u8>>> {
        if all_valid(m) {
            Some(m)
        } else {
            None
        }
    }

    fn name() -> (n: &'static str) {
        proof {
            reveal_strlit("set-cookie");
            crate::header::lemma_header_name("set-cookie");
        }
        "set-cookie"
    }

    fn from_values(values: &mut Values) -> (r: Result<Option<SetCookie>, Error>) {
        let mut set_cookies: Vec<String> = Vec::new();
        let mut empty = true;
        let ghost all = values.remaining();
        let ghost mut k: int = 0;
        assert(all.take(0) =~= Seq::<Seq<u8>>::empty());
        assert(all.skip(0) =~= all);
        assert(models(set_cookies@) =~= Seq::<Seq<u8>>::empty());
        loop
            invariant
                0 <= k <= all.len(),
                all == old(values).remaining(),
                values.remaining() == all.skip(k),
                empty <==> k == 0,
                models(set_cookies@) == cookies_of(all.take(k)),
            ensures
                values.remaining() == all.skip(all.len() as int),
                empty <==> all.len() == 0,
                models(set_cookies@) == cookies_of(all),
            decreases all.len() - k,
        {
            match values.next() {
                None => {
                    assert(all.take(k) =~= all);
                    break ;
                },
                Some(raw) => {
                    empty = false;
                    proof {
                        assert(all.skip(k)[0] == all[k]);
                        assert(all.skip(k).skip(1) =~= all.skip(k + 1));
                        assert(all.take(k + 1).drop_last() =~= all.take(k));
                        assert(all.take(k + 1).last() == all[k]);
                    }
                    if check_visible_ascii(raw) {
                        proof {
                            lemma_trim_visible(raw@);
                        }
                        let ghost before = set_cookies@;
                        let cookie = ascii_to_string(trim_bytes(raw));
                        set_cookies.push(cookie);
                        assert(models(set_cookies@) =~= models(before).push(trim(raw@)));
                    }
                    proof {
                        k = k + 1;
                    }
                },
            }
        }
        if set_cookies.len() != 0 {
            Ok(Some(SetCookie(set_cookies)))
        } else if empty {
            Ok(None)
        } else {
            Err(Error::invalid_value())
        }
    }

    fn to_values(&self, values: &mut ToValues) -> (r: Result<(), Error>) {
        let ghost m = models(self.0@);
        let mut i: usize = 0;
        assert(m.take(0) =~= Seq::<Seq<u8>>::empty());
        assert(values.entries() + Seq::<Seq<u8>>::empty() =~= values.entries());
        while i < self.0.len()
            invariant
                i <= self.0.len(),
                m == models(self.0@),
                all_valid(m.take(i as int)),
                values.entries() == old(values).entries() + m.take(i as int),
            decreases self.0.len() - i,
        {
            let mut text: Vec<u8> = Vec::new();
            push_all(&mut text, self.0[i].as_str().as_bytes());
            assert(text@ =~= m[i as int]);
            match values.append(text) {
                Ok(_) => {},
                Err(e) => {
                    proof {
                        assert(old(values).entries().is_prefix_of(values.entries()));
                    }
                    return Err(e);
                },
            }
            proof {
                assert(m.take(i + 1) =~= m.take(i as int).push(m[i as int]));
                assert(values.entries() =~= old(values).entries() + m.take(i + 1));
                assert forall|j: int| 0 <= j < m.take(i + 1).len() implies is_valid_value(
                    #[trigger] m.take(i + 1)[j],
                ) by {
                    if j < i {
                        assert(m.take(i + 1)[j] == m.take(i as int)[j]);
                    }
                }
            }
            i += 1;
        }
        assert(m.take(m.len() as int) =~= m);
        Ok(())
    }
}

} // verus!
