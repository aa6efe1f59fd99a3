//! Routing of the local HTTP proxy: `.abyss` hosts get a page, `/health`
//! answers, anything else is refused.
use vstd::prelude::*;

verus! {

/// What the proxy answers: status, optional content type and body text.
pub struct ProxyReply {
    pub status: u16,
    pub content_type: Option<String>,
    pub body: String,
}

/// `s` ends with `suffix`.
pub open spec fn ends_with(s: Seq<char>, suffix: Seq<char>) -> bool {
    s.len() >= suffix.len() && s.subrange(s.len() - suffix.len(), s.len() as int) == suffix
}

/// `s` with every trailing repetition of a non-empty `suffix` removed.
pub open spec fn strip_suffix_all(s: Seq<char>, suffix: Seq<char>) -> Seq<char>
    decreases s.len(),
{
    if suffix.len() > 0 && ends_with(s, suffix) {
        strip_suffix_all(s.subrange(0, s.len() - suffix.len()), suffix)
    } else {
        s
    }
}

/// The page served for the site `name`.
pub open spec fn site_page(name: Seq<char>) -> Seq<char> {
    "<html><head><title>"@ + name
        + " - Abysses</title><style>body{background:#0a0a1a;color:#00d4ff;font-family:monospace;padding:40px;}</style></head><body><h1>"@
        + name + "</h1><p>Hosted on Abysses decentralized darkweb.</p></body></html>"@
}

/// Whether `s` ends with `suffix`, compared character by character.
pub fn str_ends_with(s: &str, suffix: &str) -> (b: bool)
    ensures
        b == ends_with(s@, suffix@),
{
    let n = s.unicode_len();
    let m = suffix.unicode_len();
    if n < m {
        return false;
    }
    let mut i: usize = 0;
    while i < m
        invariant
            n == s@.len(),
            m == suffix@.len(),
            m <= n,
            i <= m,
            forall|k: int| 0 <= k < i ==> s@[n - m + k] == suffix@[k],
        decreases m - i,
    {
        if s.get_char(n - m + i) != suffix.get_char(i) {
            assert(s@.subrange(n - m, n as int)[i as int] != suffix@[i as int]);
            return false;
        }
        i = i + 1;
    }
    assert(s@.subrange(n - m, n as int) =~= suffix@);
    true
}

/// `s` with every trailing `.abyss` removed.
fn strip_abyss(s: &str) -> (out: &str)
    ensures
        out@ == strip_suffix_all(s@, ".abyss"@),
{
    proof { reveal_strlit(".abyss"); }
    let mut cur = s;
    while str_ends_with(cur, ".abyss")
        invariant
            strip_suffix_all(cur@, ".abyss"@) == strip_suffix_all(s@, ".abyss"@),
            ".abyss"@.len() == 6,
        decreases cur@.len(),
    {
        let n = cur.unicode_len();
        cur = cur.substring_char(0, n - 6);
    }
    cur
}

/// The proxy's answer for a request to `host` with path `path`.
pub fn route_request(host: &str, path: &str) -> (reply: ProxyReply)
    ensures
        ends_with(host@, ".abyss"@) ==> {
            &&& reply.status == 200
            &&& reply.content_type matches Some(t) && t@ == "text/html"@
            &&& reply.body@ == site_page(strip_suffix_all(host@, ".abyss"@))
        },
        !ends_with(host@, ".abyss"@) && path@ == "/health"@ ==> {
            &&& reply.status == 200
            &&& reply.content_type is None
            &&& reply.body@ == "OK"@
        },
        !ends_with(host@, ".abyss"@) && path@ != "/health"@ ==> {
            &&& reply.status == 403
            &&& reply.content_type is None
            &&& reply.body@ == "Abysses only serves .abyss domains"@
        },
{
    if str_ends_with(host, ".abyss") {
        let name = strip_abyss(host);
        let mut html = String::from_str("<html><head><title>");
        html.append(name);
        html.append(" - Abysses</title><style>body{background:#0a0a1a;color:#00d4ff;font-family:monospace;padding:40px;}</style></head><body><h1>");
        html.append(name);
        html.append("</h1><p>Hosted on Abysses decentralized darkweb.</p></body></html>");
        ProxyReply { status: 200, content_type: Some(String::from_str("text/html")), body: html }
    } else if path.to_owned() == String::from_str("/health") {
        ProxyReply { status: 200, content_type: None, body: String::from_str("OK") }
    } else {
        ProxyReply { status: 403, content_type: None, body: String::from_str("Abysses only serves .abyss domains") }
    }
}

} // verus!
