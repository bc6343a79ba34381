//! The upstream's resources as values, and how each renders to a URL.

use vstd::prelude::*;
use vstd::std_specs::cmp::PartialEqSpecImpl;

verus! {

/// The character of a decimal digit.
pub open spec fn digit_char(d: int) -> char {
    if d == 0 {
        '0'
    } else if d == 1 {
        '1'
    } else if d == 2 {
        '2'
    } else if d == 3 {
        '3'
    } else if d == 4 {
        '4'
    } else if d == 5 {
        '5'
    } else if d == 6 {
        '6'
    } else if d == 7 {
        '7'
    } else if d == 8 {
        '8'
    } else {
        '9'
    }
}

/// The decimal digits of a natural number, without leading zeros.
pub open spec fn digits_of(n: nat) -> Seq<char>
    decreases n,
{
    if n < 10 {
        seq![digit_char(n as int)]
    } else {
        digits_of(n / 10).push(digit_char((n % 10) as int))
    }
}

/// A number in decimal, with a minus sign where it is negative.
pub open spec fn decimal_of(n: int) -> Seq<char> {
    if n < 0 {
        seq!['-'] + digits_of((-n) as nat)
    } else {
        digits_of(n as nat)
    }
}

/// The text of one decimal digit.
fn digit_text(d: u64) -> (r: &'static str)
    requires
        d < 10,
    ensures
        r@ == seq![digit_char(d as int)],
{
    proof {
        reveal_strlit("0");
        reveal_strlit("1");
        reveal_strlit("2");
        reveal_strlit("3");
        reveal_strlit("4");
        reveal_strlit("5");
        reveal_strlit("6");
        reveal_strlit("7");
        reveal_strlit("8");
        reveal_strlit("9");
    }
    let r = if d == 0 {
        "0"
    } else if d == 1 {
        "1"
    } else if d == 2 {
        "2"
    } else if d == 3 {
        "3"
    } else if d == 4 {
        "4"
    } else if d == 5 {
        "5"
    } else if d == 6 {
        "6"
    } else if d == 7 {
        "7"
    } else if d == 8 {
        "8"
    } else {
        "9"
    };
    assert(r@ =~= seq![digit_char(d as int)]);
    r
}

/// Appends the decimal digits of `n` to `text`.
fn append_digits(text: &mut String, n: u64)
    ensures
        final(text)@ == old(text)@ + digits_of(n as nat),
    decreases n,
{
    if n >= 10 {
        append_digits(text, n / 10);
    }
    text.append(digit_text(n % 10));
    assert(text@ =~= old(text)@ + digits_of(n as nat));
}

/// Appends `n` in decimal to `text`.
pub fn append_decimal(text: &mut String, n: i32)
    ensures
        final(text)@ == old(text)@ + decimal_of(n as int),
{
    let wide: i64 = n as i64;
    if wide < 0 {
        proof {
            reveal_strlit("-");
        }
        text.append("-");
        let ghost signed = text@;
        append_digits(text, (0 - wide) as u64);
        proof {
            assert(signed =~= old(text)@ + seq!['-']);
            assert(final(text)@ =~= old(text)@ + decimal_of(n as int));
        }
    } else {
        append_digits(text, wide as u64);
    }
}

/// One upstream resource.
#[derive(Debug, Hash)]
pub enum Endpoint {
    Boards,
    Threads(String),
    Catalog(String),
    Archive(String),
    Thread(String, i32),
    Index(String, i32),
}

/// An endpoint as a mathematical value: its variant, the board's name as a
/// sequence of characters, and the page or thread number.
pub ghost enum EndpointView {
    Boards,
    Threads(Seq<char>),
    Catalog(Seq<char>),
    Archive(Seq<char>),
    Thread(Seq<char>, i32),
    Index(Seq<char>, i32),
}

impl View for Endpoint {
    type V = EndpointView;

    open spec fn view(&self) -> EndpointView {
        match self {
            Endpoint::Boards => EndpointView::Boards,
            Endpoint::Threads(board) => EndpointView::Threads(board@),
            Endpoint::Catalog(board) => EndpointView::Catalog(board@),
            Endpoint::Archive(board) => EndpointView::Archive(board@),
            Endpoint::Thread(board, no) => EndpointView::Thread(board@, *no),
            Endpoint::Index(board, page) => EndpointView::Index(board@, *page),
        }
    }
}

impl Clone for Endpoint {
    fn clone(&self) -> (r: Self)
        ensures
            r@ == self@,
    {
        match self {
            Endpoint::Boards => Endpoint::Boards,
            Endpoint::Threads(board) => Endpoint::Threads(board.clone()),
            Endpoint::Catalog(board) => Endpoint::Catalog(board.clone()),
            Endpoint::Archive(board) => Endpoint::Archive(board.clone()),
            Endpoint::Thread(board, no) => Endpoint::Thread(board.clone(), *no),
            Endpoint::Index(board, page) => Endpoint::Index(board.clone(), *page),
        }
    }
}

/// Whether two names consist of the same characters.
fn same_name(a: &String, b: &String) -> (r: bool)
    ensures
        r == (a@ == b@),
{
    *a == *b
}

impl PartialEq for Endpoint {
    /// Two endpoints are equal when their variants and all components
    /// match.
    fn eq(&self, other: &Self) -> (r: bool) {
        match self {
            Endpoint::Boards => match other {
                Endpoint::Boards => true,
                _ => false,
            },
            Endpoint::Threads(a) => match other {
                Endpoint::Threads(b) => same_name(a, b),
                _ => false,
            },
            Endpoint::Catalog(a) => match other {
                Endpoint::Catalog(b) => same_name(a, b),
                _ => false,
            },
            Endpoint::Archive(a) => match other {
                Endpoint::Archive(b) => same_name(a, b),
                _ => false,
            },
            Endpoint::Thread(a, m) => match other {
                Endpoint::Thread(b, n) => same_name(a, b) && *m == *n,
                _ => false,
            },
            Endpoint::Index(a, m) => match other {
                Endpoint::Index(b, n) => same_name(a, b) && *m == *n,
                _ => false,
            },
        }
    }
}

impl PartialEqSpecImpl for Endpoint {
    open spec fn obeys_eq_spec() -> bool {
        true
    }

    open spec fn eq_spec(&self, other: &Self) -> bool {
        self@ == other@
    }
}

impl Eq for Endpoint {

}

/// The host that serves every endpoint.
pub open spec fn base_url() -> Seq<char> {
    "a.4cdn.org"@
}

/// The host and path of an endpoint, without a scheme.
pub open spec fn location_of(endpoint: EndpointView) -> Seq<char> {
    base_url() + match endpoint {
        EndpointView::Boards => "/boards.json"@,
        EndpointView::Threads(board) => "/"@ + board + "/threads.json"@,
        EndpointView::Catalog(board) => "/"@ + board + "/catalog.json"@,
        EndpointView::Archive(board) => "/"@ + board + "/archive.json"@,
        EndpointView::Index(board, page) => "/"@ + board + "/"@ + decimal_of(page as int)
            + ".json"@,
        EndpointView::Thread(board, no) => "/"@ + board + "/thread/"@ + decimal_of(no as int)
            + ".json"@,
    }
}

/// The URL of an endpoint under the scheme that `https` selects.
pub open spec fn url_of(endpoint: EndpointView, https: bool) -> Seq<char> {
    (if https {
        "https://"@
    } else {
        "http://"@
    }) + location_of(endpoint)
}

impl Endpoint {
    /// Appends the host and path to `text`.
    fn append_location(&self, text: &mut String)
        ensures
            final(text)@ == old(text)@ + location_of(self@),
    {
        text.append("a.4cdn.org");
        match self {
            Endpoint::Boards => {
                text.append("/boards.json");
                assert(text@ =~= old(text)@ + location_of(self@));
            },
            Endpoint::Threads(board) => {
                text.append("/");
                text.append(board.as_str());
                text.append("/threads.json");
                assert(text@ =~= old(text)@ + location_of(self@));
            },
            Endpoint::Catalog(board) => {
                text.append("/");
                text.append(board.as_str());
                text.append("/catalog.json");
                assert(text@ =~= old(text)@ + location_of(self@));
            },
            Endpoint::Archive(board) => {
                text.append("/");
                text.append(board.as_str());
                text.append("/archive.json");
                assert(text@ =~= old(text)@ + location_of(self@));
            },
            Endpoint::Index(board, page) => {
                text.append("/");
                text.append(board.as_str());
                text.append("/");
                append_decimal(text, *page);
                text.append(".json");
                assert(text@ =~= old(text)@ + location_of(self@));
            },
            Endpoint::Thread(board, no) => {
                text.append("/");
                text.append(board.as_str());
                text.append("/thread/");
                append_decimal(text, *no);
                text.append(".json");
                assert(text@ =~= old(text)@ + location_of(self@));
            },
        }
    }

    /// The host and path, without a scheme.
    pub fn to_string(&self) -> (r: String)
        ensures
            r@ == location_of(self@),
    {
        let mut text = String::new();
        self.append_location(&mut text);
        assert(text@ =~= location_of(self@));
        text
    }

    /// The URL under plain HTTP.
    pub fn http(&self) -> (r: String)
        ensures
            r@ == url_of(self@, false),
    {
        let mut text = String::from_str("http://");
        self.append_location(&mut text);
        text
    }

    /// The URL under HTTPS.
    pub fn https(&self) -> (r: String)
        ensures
            r@ == url_of(self@, true),
    {
        let mut text = String::from_str("https://");
        self.append_location(&mut text);
        text
    }

    /// The URL under the scheme that `https` selects. The endpoint itself
    /// holds no scheme.
    pub fn url(&self, https: bool) -> (r: String)
        ensures
            r@ == url_of(self@, https),
    {
        if https {
            self.https()
        } else {
            self.http()
        }
    }
}

} // verus!
