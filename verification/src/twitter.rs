//! The messages of the tweet relay: what is announced for a tweet, and how
//! the links that belong to it are listed.

use vstd::prelude::*;
use vstd::string::*;
use crate::backend::texts;

verus! {

/// The character of a decimal digit.
pub open spec fn digit_char(d: nat) -> char {
    seq!['0', '1', '2', '3', '4', '5', '6', '7', '8', '9'][d as int]
}

/// A number in decimal, without leading zeros.
pub open spec fn decimal_text(n: nat) -> Seq<char>
    decreases n,
{
    if n < 10 {
        seq![digit_char(n)]
    } else {
        decimal_text(n / 10).push(digit_char(n % 10))
    }
}

/// A link in the chat's markup, shown as its number.
pub open spec fn link_text(number: nat, target: Seq<char>) -> Seq<char> {
    seq!['['] + decimal_text(number) + seq![']', '('] + target + seq![')']
}

/// The parts in a row, with one space between neighbours.
pub open spec fn spaced(parts: Seq<Seq<char>>) -> Seq<char>
    decreases parts.len(),
{
    if parts.len() == 0 {
        Seq::empty()
    } else if parts.len() == 1 {
        parts[0]
    } else {
        spaced(parts.drop_last()) + seq![' '] + parts.last()
    }
}

/// The links to the targets among the first `n` entries. Each link bears the
/// number of its entry, counted from one, so that an entry without a target
/// leaves a gap in the numbers.
pub open spec fn links_upto(targets: Seq<Option<Seq<char>>>, n: nat) -> Seq<Seq<char>>
    decreases n,
{
    if n == 0 {
        Seq::empty()
    } else {
        let before = links_upto(targets, (n - 1) as nat);
        match targets[n - 1] {
            Some(target) => before.push(link_text(n, target)),
            None => before,
        }
    }
}

/// The links to all of the targets.
pub open spec fn links(targets: Seq<Option<Seq<char>>>) -> Seq<Seq<char>> {
    links_upto(targets, targets.len())
}

/// The targets of a list of entries.
pub open spec fn targets_view(entries: Seq<Option<String>>) -> Seq<Option<Seq<char>>> {
    entries.map_values(
        |e: Option<String>|
            match e {
                Some(target) => Some(target@),
                None => None,
            },
    )
}

/// A list of targets without a gap.
pub open spec fn all_targets(urls: Seq<Seq<char>>) -> Seq<Option<Seq<char>>> {
    urls.map_values(|u: Seq<char>| Some(u))
}

/// What follows the announcement of a tweet for the links it holds: nothing
/// where no link led anywhere, else the list of the links in brackets.
pub open spec fn suffix_text(targets: Seq<Option<Seq<char>>>) -> Seq<char> {
    if links(targets).len() == 0 {
        Seq::empty()
    } else {
        " (urls: "@ + spaced(links(targets)) + seq![')']
    }
}

/// The expression that matches a shortened link: the address of the
/// shortener, and what follows up to the next white space.
pub const TCO_EXPRESSION: &'static str = "https://t\\.co/\\S+";

/// What the `regex` crate finds of an expression in a text: `None` where it
/// does not accept the expression, else the matches from left to right, as
/// `regex::Regex::find_iter` reports them.
pub uninterp spec fn regex_matches(expression: Seq<char>, text: Seq<char>) -> Option<
    Seq<Seq<char>>,
>;

/// Compiles an expression with `regex::Regex::new` and collects the text of
/// each match that `find_iter` reports in a text. Trusted: the result is
/// `regex_matches` of the expression and the text, nothing more is claimed.
#[verifier::external_body]
fn find_matches(expression: &str, text: &str) -> (r: Option<Vec<String>>)
    ensures
        match r {
            Some(found) => regex_matches(expression@, text@) == Some(texts(found@)),
            None => regex_matches(expression@, text@) is None,
        },
{
    let compiled = regex::Regex::new(expression).ok()?;
    Some(compiled.find_iter(text).map(|hit| hit.as_str().to_owned()).collect())
}

/// The shortened links that a text holds, from left to right: what
/// [`TCO_EXPRESSION`] matches in it.
pub open spec fn tco_matches(body: Seq<char>) -> Seq<Seq<char>> {
    links_found(regex_matches(TCO_EXPRESSION@, body))
}

/// The links in the outcome of a search: none where the search could not be
/// made.
pub open spec fn links_found(outcome: Option<Seq<Seq<char>>>) -> Seq<Seq<char>> {
    match outcome {
        Some(found) => found,
        None => Seq::empty(),
    }
}

/// The links in the outcome of a search.
pub fn found_links(outcome: Option<Vec<String>>) -> (r: Vec<String>)
    ensures
        texts(r@) == links_found(
            match outcome {
                Some(found) => Some(texts(found@)),
                None => None,
            },
        ),
{
    match outcome {
        Some(found) => found,
        None => {
            let none: Vec<String> = Vec::new();
            assert(texts(none@) =~= Seq::empty());
            none
        },
    }
}

/// The shortened links in the body of a tweet, from left to right.
pub fn tco_urls(body: &str) -> (r: Vec<String>)
    ensures
        texts(r@) == tco_matches(body@),
{
    found_links(find_matches(TCO_EXPRESSION, body))
}

fn digit(d: usize) -> (r: &'static str)
    requires
        d < 10,
    ensures
        r@ == seq![digit_char(d as nat)],
{
    proof {
        reveal_strlit("0");
        reveal_strlit("1");
        reveal_strlit("2");
        reveal_strlit("3");
        reveal_strlit("4");
        reveal_strlit("5");
        reveal_strlit("6");
        reveal_strlit("7");
        reveal_strlit("8");
        reveal_strlit("9");
    }
    let r = if d == 0 {
        "0"
    } else if d == 1 {
        "1"
    } else if d == 2 {
        "2"
    } else if d == 3 {
        "3"
    } else if d == 4 {
        "4"
    } else if d == 5 {
        "5"
    } else if d == 6 {
        "6"
    } else if d == 7 {
        "7"
    } else if d == 8 {
        "8"
    } else {
        "9"
    };
    assert(r@ =~= seq![digit_char(d as nat)]);
    r
}

/// A number in decimal.
pub fn decimal(n: usize) -> (r: String)
    ensures
        r@ == decimal_text(n as nat),
    decreases n,
{
    if n < 10 {
        String::from_str(digit(n))
    } else {
        let mut text = decimal(n / 10);
        text.append(digit(n % 10));
        text
    }
}

/// A link in the chat's markup, shown as its number.
pub fn numbered_link(number: usize, target: &str) -> (r: String)
    ensures
        r@ == link_text(number as nat, target@),
{
    proof {
        reveal_strlit("[");
        reveal_strlit("](");
        reveal_strlit(")");
    }
    let mut link = String::from_str("[");
    link.append(decimal(number).as_str());
    link.append("](");
    link.append(target);
    link.append(")");
    assert(link@ =~= link_text(number as nat, target@));
    link
}

/// The parts in a row, with one space between neighbours.
pub fn join_spaced(parts: &Vec<String>) -> (r: String)
    ensures
        r@ == spaced(texts(parts@)),
{
    let mut out = String::new();
    let mut i: usize = 0;
    proof {
        reveal_strlit(" ");
        assert(texts(parts@).take(0) =~= Seq::empty());
    }
    while i < parts.len()
        invariant
            i <= parts.len(),
            out@ == spaced(texts(parts@).take(i as int)),
        decreases parts.len() - i,
    {
        proof {
            let upto = texts(parts@).take(i + 1);
            assert(upto.drop_last() =~= texts(parts@).take(i as int));
            assert(upto.last() == parts@[i as int]@);
        }
        if i > 0 {
            out.append(" ");
        }
        out.append(parts[i].as_str());
        proof {
            reveal_strlit(" ");
            let upto = texts(parts@).take(i + 1);
            if i == 0 {
                assert(out@ =~= upto[0]);
            } else {
                assert(out@ =~= spaced(upto.drop_last()) + seq![' '] + upto.last());
            }
        }
        i += 1;
    }
    proof {
        assert(texts(parts@).take(parts@.len() as int) =~= texts(parts@));
    }
    out
}

/// The links to the targets, each with the number of its entry.
pub fn numbered_links(targets: &Vec<Option<String>>) -> (r: Vec<String>)
    ensures
        texts(r@) == links(targets_view(targets@)),
{
    let mut found: Vec<String> = Vec::new();
    let mut i: usize = 0;
    proof {
        assert(texts(found@) =~= links_upto(targets_view(targets@), 0));
    }
    while i < targets.len()
        invariant
            i <= targets.len(),
            texts(found@) == links_upto(targets_view(targets@), i as nat),
        decreases targets.len() - i,
    {
        let ghost before = texts(found@);
        match &targets[i] {
            Some(target) => {
                let link = numbered_link(i + 1, target.as_str());
                found.push(link);
                proof {
                    assert(texts(found@) =~= before.push(link_text((i + 1) as nat, target@)));
                }
            },
            None => {},
        }
        i += 1;
    }
    found
}

/// The announcement of a tweet.
pub fn announcement(author: &str, url: &str) -> (r: String)
    ensures
        r@ == "New tweet by "@ + author@ + ": "@ + url@,
{
    let mut message = String::from_str("New tweet by ");
    message.append(author);
    message.append(": ");
    message.append(url);
    message
}

/// What follows the announcement of a tweet for the shortened links in it.
/// `targets` holds, for each link in order, where it leads, or `None` where
/// it leads nowhere.
pub fn resolved_urls(targets: &Vec<Option<String>>) -> (r: String)
    ensures
        r@ == suffix_text(targets_view(targets@)),
{
    let links = numbered_links(targets);
    if links.len() == 0 {
        String::new()
    } else {
        proof {
            reveal_strlit(")");
        }
        let mut out = String::from_str(" (urls: ");
        out.append(join_spaced(&links).as_str());
        out.append(")");
        out
    }
}

/// The message that lists the attachments of a tweet.
pub fn attachments(urls: Vec<String>) -> (r: String)
    ensures
        r@ == "attachments: "@ + spaced(links(all_targets(texts(urls@)))),
{
    let mut targets: Vec<Option<String>> = Vec::new();
    for url in it: urls
        invariant
            it.seq() == urls@,
            targets@.len() == it.index(),
            forall|i: int| 0 <= i < it.index() ==> #[trigger] targets@[i] == Some(urls@[i]),
    {
        targets.push(Some(url));
    }
    proof {
        assert(targets_view(targets@) =~= all_targets(texts(urls@)));
    }
    let found = numbered_links(&targets);
    let mut out = String::from_str("attachments: ");
    out.append(join_spaced(&found).as_str());
    out
}

} // verus!
