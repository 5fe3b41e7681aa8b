use vstd::prelude::*;

verus! {

/// What a viewer may do in a session.
#[derive(Clone, Copy, Debug, PartialEq, Eq, Structural)]
pub enum Permission {
    ReadOnly,
    Write,
}

/// The permission granted to a viewer that presented `claim` at connect
/// time. Without write protection (`write_password` is `None`) everyone may
/// write; with it, only a viewer presenting exactly the password.
pub open spec fn authorize_spec(claim: Option<Seq<char>>, write_password: Option<Seq<char>>) -> Permission {
    match write_password {
        None => Permission::Write,
        Some(pw) => if claim == Some(pw) {
            Permission::Write
        } else {
            Permission::ReadOnly
        },
    }
}

pub open spec fn opt_view(s: Option<String>) -> Option<Seq<char>> {
    match s {
        Some(x) => Some(x@),
        None => None,
    }
}

pub fn authorize(claim: &Option<String>, write_password: &Option<String>) -> (r: Permission)
    ensures
        r == authorize_spec(opt_view(*claim), opt_view(*write_password)),
{
    match write_password {
        None => Permission::Write,
        Some(pw) => match claim {
            Some(c) => if *c == *pw {
                Permission::Write
            } else {
                Permission::ReadOnly
            },
            None => Permission::ReadOnly,
        },
    }
}

/// The link of a session: where the relay serves it, without any secret.
pub open spec fn link_of(server: Seq<char>, base_path: Seq<char>, session_id: Seq<char>) -> Seq<char> {
    if base_path.len() == 0 {
        server + "/s/"@ + session_id
    } else {
        server + "/"@ + base_path + "/s/"@ + session_id
    }
}

/// The link with the encryption key as its fragment.
pub open spec fn url_of(link: Seq<char>, key: Seq<char>) -> Seq<char> {
    link + "#"@ + key
}

/// The link that carries write access as well: the password after a comma.
pub open spec fn write_url_of(url: Seq<char>, password: Seq<char>) -> Seq<char> {
    url + ","@ + password
}

/// The link for viewers who type the write password in by hand.
pub open spec fn manual_url_of(url: Seq<char>) -> Seq<char> {
    url + ",manually"@
}

/// The shareable links of a session.
pub struct Links {
    pub link: String,
    pub url: String,
    pub write_url: Option<String>,
    pub manual_url: Option<String>,
}

pub fn compute_links(
    server: &str,
    base_path: &str,
    session_id: &str,
    encryption_key: &str,
    write_password: &Option<String>,
) -> (r: Links)
    ensures
        r.link@ == link_of(server@, base_path@, session_id@),
        r.url@ == url_of(r.link@, encryption_key@),
        write_password is None ==> r.write_url is None && r.manual_url is None,
        write_password matches Some(pw) ==> (r.write_url matches Some(w) && w@ == write_url_of(
            r.url@,
            pw@,
        )),
        write_password is Some ==> (r.manual_url matches Some(m) && m@ == manual_url_of(r.url@)),
{
    let mut link = String::from_str(server);
    if base_path.unicode_len() == 0 {
        link.append("/s/");
    } else {
        link.append("/");
        link.append(base_path);
        link.append("/s/");
    }
    link.append(session_id);
    let mut url = link.clone();
    url.append("#");
    url.append(encryption_key);
    let (write_url, manual_url) = match write_password {
        None => (None, None),
        Some(pw) => {
            let mut w = url.clone();
            w.append(",");
            w.append(pw.as_str());
            let mut m = url.clone();
            m.append(",manually");
            (Some(w), Some(m))
        },
    };
    proof {
        assert(link@ =~= link_of(server@, base_path@, session_id@));
    }
    Links { link, url, write_url, manual_url }
}

/// The part of a host name before its first dot.
pub open spec fn first_label(h: Seq<char>) -> Seq<char>
    decreases h.len(),
{
    if h.len() == 0 || h[0] == '.' {
        Seq::empty()
    } else {
        seq![h[0]] + first_label(h.drop_first())
    }
}

proof fn lemma_first_label(h: Seq<char>, i: int)
    requires
        0 <= i <= h.len(),
        forall|j: int| 0 <= j < i ==> h[j] != '.',
        i == h.len() || h[i] == '.',
    ensures
        first_label(h) == h.subrange(0, i),
    decreases i,
{
    if i > 0 {
        lemma_first_label(h.drop_first(), i - 1);
        assert(h.subrange(0, i) =~= seq![h[0]] + h.drop_first().subrange(0, i - 1));
    } else {
        assert(h.subrange(0, i) =~= Seq::<char>::empty());
    }
}

/// The display name of a session when none is given: the user name, and
/// `@` with the first label of the host name when that is known.
pub open spec fn default_name_spec(user: Seq<char>, host: Option<Seq<char>>) -> Seq<char> {
    match host {
        None => user,
        Some(h) => user + "@"@ + first_label(h),
    }
}

pub fn default_name(user: &str, host: Option<&str>) -> (r: String)
    ensures
        r@ == default_name_spec(user@, match host {
            Some(h) => Some(h@),
            None => None,
        }),
{
    let mut name = String::from_str(user);
    if let Some(h) = host {
        let n = h.unicode_len();
        let mut i: usize = 0;
        while i < n && h.get_char(i) != '.'
            invariant
                n == h@.len(),
                i <= n,
                forall|j: int| 0 <= j < i ==> h@[j] != '.',
            decreases n - i,
        {
            i = i + 1;
        }
        proof {
            lemma_first_label(h@, i as int);
        }
        name.append("@");
        name.append(h.substring_char(0, i));
    }
    name
}

} // verus!
