//! Turning what the `container` tool prints into values. One module, so drift
//! between its versions has a single place to be absorbed.
use crate::text;
use vstd::prelude::*;

verus! {

/// The lines that are not blank, trimmed.
pub open spec fn names_in(lines: Seq<Seq<char>>) -> Seq<Seq<char>>
    decreases lines.len(),
{
    if lines.len() == 0 {
        seq![]
    } else {
        let rest = names_in(lines.drop_last());
        let name = text::trim(lines.last());
        if name.len() == 0 {
            rest
        } else {
            rest.push(name)
        }
    }
}

/// Names from any `--quiet` listing (images or containers), one per line.
pub fn names(stdout: &str) -> (r: Vec<String>)
    ensures
        text::views(r@) == names_in(text::lines(stdout@)),
{
    let lines = text::lines_of(stdout);
    let ghost all = text::views(lines@);
    let mut out: Vec<String> = Vec::new();
    let mut i: usize = 0;
    assert(text::views(out@) =~= names_in(all.take(0)));
    while i < lines.len()
        invariant
            i <= lines@.len(),
            all == text::views(lines@),
            text::views(out@) == names_in(all.take(i as int)),
        decreases lines.len() - i,
    {
        assert(all.take(i + 1).drop_last() =~= all.take(i as int));
        assert(all.take(i + 1).last() == lines@[i as int]@);
        let name = text::trimmed(lines[i].as_str());
        if name.as_str().unicode_len() > 0 {
            proof {
                text::lemma_views_push(out@, name);
            }
            out.push(name);
        }
        i = i + 1;
    }
    assert(all.take(i as int) =~= all);
    out
}

/// Whether a word could be a version: it starts with a digit.
pub open spec fn is_versionlike(word: Seq<char>) -> bool {
    word.len() > 0 && text::is_digit(word[0])
}

/// The first of some words, from an index on, that could be a version.
pub open spec fn version_among(words: Seq<Seq<char>>, from: int) -> Option<Seq<char>>
    decreases words.len() - from,
{
    if from >= words.len() {
        None
    } else if is_versionlike(words[from]) {
        Some(words[from])
    } else {
        version_among(words, from + 1)
    }
}

/// The version from `container --version`, whose output reads
/// `container CLI version 1.3.1 (build: release, commit: unspecified)`.
pub fn cli_version(stdout: &str) -> (r: Option<String>)
    ensures
        text::view_of(r) == version_among(text::words(stdout@), 0),
{
    let words = text::words_of(stdout);
    let ghost all = text::views(words@);
    let mut i: usize = 0;
    while i < words.len()
        invariant
            i <= words@.len(),
            all == text::views(words@),
            all == text::words(stdout@),
            version_among(all, 0) == version_among(all, i as int),
        decreases words.len() - i,
    {
        assert(all[i as int] == words@[i as int]@);
        let word = words[i].as_str();
        if word.unicode_len() > 0 {
            let first = word.get_char(0);
            if '0' <= first && first <= '9' {
                return Some(words[i].clone());
            }
        }
        i = i + 1;
    }
    None
}

// ---------------------------------------------------------------------------
// Inspection
// ---------------------------------------------------------------------------

/// The text that a JSON document holds at a pointer.
pub uninterp spec fn json_text(document: Seq<char>, pointer: Seq<char>) -> Option<Seq<char>>;

/// The length of the array that a JSON document holds at a pointer.
pub uninterp spec fn json_length(document: Seq<char>, pointer: Seq<char>) -> Option<nat>;

/// `serde_json::Value::as_str`, on what `serde_json::Value::pointer` finds in what
/// `serde_json::from_str` reads. The result is a text where the document is JSON
/// and holds a string there, and nothing otherwise; it depends on the document
/// and the pointer alone. What JSON is, and which document holds what where, is
/// left unsaid.
#[verifier::external_body]
fn text_at(document: &str, pointer: &str) -> (r: Option<String>)
    ensures
        text::view_of(r) == json_text(document@, pointer@),
{
    let value = serde_json::from_str::<serde_json::Value>(document).ok()?;
    Some(value.pointer(pointer)?.as_str()?.to_string())
}

/// The length of what `serde_json::Value::as_array` gives of what
/// `serde_json::Value::pointer` finds in what `serde_json::from_str` reads. There is
/// one where the document is JSON and holds an array there; it depends on the
/// document and the pointer alone. What JSON is, and which document holds what
/// where, is left unsaid.
#[verifier::external_body]
fn length_at(document: &str, pointer: &str) -> (r: Option<usize>)
    ensures
        match r {
            Some(length) => json_length(document@, pointer@) == Some(length as nat),
            None => json_length(document@, pointer@) is None,
        },
{
    let value = serde_json::from_str::<serde_json::Value>(document).ok()?;
    Some(value.pointer(pointer)?.as_array()?.len())
}

/// The pointer to the gateway of a network, by its index.
pub open spec fn gateway_pointer(i: nat) -> Seq<char> {
    "/0/status/networks/"@ + text::decimal(i) + "/ipv4Gateway"@
}

/// What a container's first networks say of their gateways.
pub open spec fn gateway_texts(document: Seq<char>, networks: nat) -> Seq<Option<Seq<char>>> {
    Seq::new(networks, |i: int| json_text(document, gateway_pointer(i as nat)))
}

/// The gateways that networks say they have, in order.
pub open spec fn stated(replies: Seq<Option<Seq<char>>>) -> Seq<Seq<char>>
    decreases replies.len(),
{
    if replies.len() == 0 {
        seq![]
    } else {
        match replies.last() {
            Some(gateway) => stated(replies.drop_last()).push(gateway),
            None => stated(replies.drop_last()),
        }
    }
}

/// Replies, each as a view.
pub open spec fn reply_views(replies: Seq<Option<String>>) -> Seq<Option<Seq<char>>> {
    replies.map_values(|reply: Option<String>| text::view_of(reply))
}

/// The gateways that networks say they have, in order, given what each says.
pub fn gateways(replies: Vec<Option<String>>) -> (r: Vec<String>)
    ensures
        text::views(r@) == stated(reply_views(replies@)),
{
    let ghost all = reply_views(replies@);
    let mut out: Vec<String> = Vec::new();
    let mut i: usize = 0;
    assert(text::views(out@) =~= stated(all.take(0)));
    while i < replies.len()
        invariant
            i <= replies@.len(),
            all == reply_views(replies@),
            text::views(out@) == stated(all.take(i as int)),
        decreases replies.len() - i,
    {
        assert(all.take(i + 1).drop_last() =~= all.take(i as int));
        assert(all.take(i + 1).last() == text::view_of(replies@[i as int]));
        match &replies[i] {
            Some(gateway) => {
                let gateway = gateway.clone();
                proof {
                    text::lemma_views_push(out@, gateway);
                }
                out.push(gateway);
            },
            None => {},
        }
        i = i + 1;
    }
    assert(all.take(i as int) =~= all);
    out
}

/// The first of some gateways that is an address, given which of them are.
pub fn first_address(gateways: &Vec<String>, addresses: &Vec<bool>) -> (r: Option<String>)
    requires
        addresses@.len() == gateways@.len(),
    ensures
        match r {
            Some(gateway) => exists|i: int|
                0 <= i < gateways@.len() && #[trigger] addresses@[i] && gateway@ == gateways@[i]@
                    && forall|j: int| 0 <= j < i ==> !(#[trigger] addresses@[j]),
            None => forall|i: int| 0 <= i < addresses@.len() ==> !(#[trigger] addresses@[i]),
        },
{
    let mut i: usize = 0;
    while i < gateways.len()
        invariant
            i <= gateways@.len(),
            addresses@.len() == gateways@.len(),
            forall|j: int| 0 <= j < i ==> !(#[trigger] addresses@[j]),
        decreases gateways.len() - i,
    {
        if addresses[i] {
            return Some(gateways[i].clone());
        }
        i = i + 1;
    }
    None
}

/// The gateways of the networks a container is attached to, in order, from
/// `container inspect <name>`: `[0].status.networks[].ipv4Gateway`. The first that
/// is an address is the container's: see `first_address`.
pub fn container_gateway(stdout: &str) -> (r: Vec<String>)
    ensures
        text::views(r@) == (match json_length(stdout@, Seq::empty()) {
            None => Seq::empty(),
            Some(_) => match json_length(stdout@, "/0/status/networks"@) {
                None => Seq::empty(),
                Some(networks) => stated(gateway_texts(stdout@, networks)),
            },
        }),
{
    let mut replies: Vec<Option<String>> = Vec::new();
    assert(reply_views(replies@) =~= seq![]);
    proof {
        reveal_strlit("");
        assert(""@ =~= Seq::empty());
    }
    if length_at(stdout, "").is_none() {
        return gateways(replies);
    }
    match length_at(stdout, "/0/status/networks") {
        None => {},
        Some(networks) => {
            let mut i: usize = 0;
            assert(reply_views(replies@) =~= gateway_texts(stdout@, 0));
            while i < networks
                invariant
                    i <= networks,
                    reply_views(replies@) == gateway_texts(stdout@, i as nat),
                decreases networks - i,
            {
                let mut pointer = "/0/status/networks/".to_string();
                pointer.append(text::decimal_text(i as u128).as_str());
                pointer.append("/ipv4Gateway");
                let reply = text_at(stdout, pointer.as_str());
                let ghost before = replies@;
                replies.push(reply);
                assert(reply_views(replies@) =~= reply_views(before).push(text::view_of(reply)));
                assert(reply_views(replies@) =~= gateway_texts(stdout@, (i + 1) as nat));
                i = i + 1;
            }
        },
    }
    gateways(replies)
}

/// A network's gateway, from `container network inspect <name>`:
/// `[0].status.ipv4Gateway`. It counts where it is an address.
pub fn network_gateway(stdout: &str) -> (r: Option<String>)
    ensures
        text::view_of(r) == (match json_length(stdout@, Seq::empty()) {
            None => None,
            Some(_) => json_text(stdout@, "/0/status/ipv4Gateway"@),
        }),
{
    proof {
        reveal_strlit("");
        assert(""@ =~= Seq::empty());
    }
    if length_at(stdout, "").is_none() {
        return None;
    }
    text_at(stdout, "/0/status/ipv4Gateway")
}

/// Every line that is not blank is a name, without the white space around it, and
/// nothing else is.
pub proof fn law_exactly_lines_that_are_not_blank_are_names(
    lines: Seq<Seq<char>>,
    name: Seq<char>,
)
    ensures
        names_in(lines).contains(name) <==> name.len() > 0 && exists|i: int|
            0 <= i < lines.len() && text::trim(#[trigger] lines[i]) == name,
        names_in(lines).len() <= lines.len(),
    decreases lines.len(),
{
    if lines.len() > 0 {
        let rest = lines.drop_last();
        let shorter = names_in(rest);
        let whole = names_in(lines);
        law_exactly_lines_that_are_not_blank_are_names(rest, name);
        assert(lines[lines.len() - 1] == lines.last());
        if shorter.contains(name) {
            let k = choose|k: int| 0 <= k < shorter.len() && shorter[k] == name;
            assert(whole[k] == name);
            let i = choose|i: int| 0 <= i < rest.len() && text::trim(#[trigger] rest[i]) == name;
            assert(lines[i] == rest[i]);
        }
        if name.len() > 0 && text::trim(lines.last()) == name {
            assert(whole[whole.len() - 1] == name);
        }
        if whole.contains(name) && !shorter.contains(name) {
            let k = choose|k: int| 0 <= k < whole.len() && whole[k] == name;
            if k < shorter.len() {
                assert(shorter[k] == name);
            }
        }
        if name.len() > 0 && exists|i: int|
            0 <= i < lines.len() && text::trim(#[trigger] lines[i]) == name {
            let i = choose|i: int| 0 <= i < lines.len() && text::trim(#[trigger] lines[i]) == name;
            if i < rest.len() {
                assert(rest[i] == lines[i]);
            }
        }
    }
}

/// The version is the first word that begins with a digit; where no word does, there
/// is none.
pub proof fn law_the_version_is_the_first_word_with_a_digit(words: Seq<Seq<char>>, from: int)
    requires
        0 <= from,
    ensures
        match version_among(words, from) {
            Some(version) => exists|i: int|
                from <= i < words.len() && #[trigger] words[i] == version && version.len() > 0
                    && '0' <= version[0] <= '9' && forall|j: int|
                    from <= j < i ==> !((#[trigger] words[j]).len() > 0 && '0' <= words[j][0]
                        <= '9'),
            None => forall|j: int|
                from <= j < words.len() ==> !((#[trigger] words[j]).len() > 0 && '0'
                    <= words[j][0] <= '9'),
        },
    decreases words.len() - from,
{
    if from < words.len() {
        if is_versionlike(words[from]) {
            assert(words[from] == version_among(words, from)->0);
        } else {
            law_the_version_is_the_first_word_with_a_digit(words, from + 1);
            if version_among(words, from) is Some {
                let version = version_among(words, from)->0;
                let i = choose|i: int|
                    from + 1 <= i < words.len() && #[trigger] words[i] == version && version.len()
                        > 0 && '0' <= version[0] <= '9' && forall|j: int|
                        from + 1 <= j < i ==> !((#[trigger] words[j]).len() > 0 && '0'
                            <= words[j][0] <= '9');
                assert(words[i] == version);
                assert forall|j: int| from <= j < i implies !((#[trigger] words[j]).len() > 0
                    && '0' <= words[j][0] <= '9') by {
                    if j == from {
                        assert(!is_versionlike(words[from]));
                    }
                }
            }
        }
    }
}

/// Every network that states a gateway is heard, and no other.
pub proof fn law_exactly_stated_gateways_are_heard(
    replies: Seq<Option<Seq<char>>>,
    gateway: Seq<char>,
)
    ensures
        stated(replies).contains(gateway) <==> replies.contains(Some(gateway)),
        stated(replies).len() <= replies.len(),
    decreases replies.len(),
{
    if replies.len() > 0 {
        let rest = replies.drop_last();
        let shorter = stated(rest);
        let whole = stated(replies);
        law_exactly_stated_gateways_are_heard(rest, gateway);
        assert(replies[replies.len() - 1] == replies.last());
        if shorter.contains(gateway) {
            let k = choose|k: int| 0 <= k < shorter.len() && shorter[k] == gateway;
            assert(whole[k] == gateway);
        }
        if rest.contains(Some(gateway)) {
            let k = choose|k: int| 0 <= k < rest.len() && rest[k] == Some(gateway);
            assert(replies[k] == Some(gateway));
        }
        if replies.last() == Some(gateway) {
            assert(whole[whole.len() - 1] == gateway);
        }
        if replies.contains(Some(gateway)) && !rest.contains(Some(gateway)) {
            let k = choose|k: int| 0 <= k < replies.len() && replies[k] == Some(gateway);
            if k < rest.len() {
                assert(rest[k] == Some(gateway));
            }
        }
        if whole.contains(gateway) && !shorter.contains(gateway) {
            let k = choose|k: int| 0 <= k < whole.len() && whole[k] == gateway;
            if k < shorter.len() {
                assert(shorter[k] == gateway);
            }
        }
    }
}

} // verus!
