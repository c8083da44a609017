//! Verified compute half of the remote list client: request bodies, the
//! endpoint URL, item capitalization, and the assembly of login
//! credentials from an authentication response. The network calls
//! themselves live outside the library and hand plain values in and out.

use vstd::prelude::*;
use vstd::string::*;

verus! {

/// What an edit does to the remote shopping list.
pub enum Action {
    REMOVE,
    ADD,
}

impl Action {
    /// The verb phrase for a completed edit, as shown to the user.
    pub fn phrase(&self) -> (r: &'static str)
        ensures
            self is ADD ==> r@ == "added to"@,
            self is REMOVE ==> r@ == "removed from"@,
    {
        match self {
            Action::ADD => "added to",
            Action::REMOVE => "removed from",
        }
    }
}

/// Credentials returned by a successful login exchange.
pub struct LoginInfo {
    pub auth_token: String,
    pub list_uuid: String,
    pub expiration_timestamp: i64,
}

/// A failed login exchange: the collaborator's report, surfaced to the
/// caller unchanged.
pub struct AuthError {
    pub message: String,
}

/// Which required field the authentication response lacked.
pub enum CredentialError {
    MissingToken,
    MissingListUuid,
    MissingExpiration,
}

/// The uppercase mapping of a character, as `char::to_uppercase` yields
/// it.
pub uninterp spec fn upper_of(c: char) -> Seq<char>;

/// Relies on char::to_uppercase: the uppercase mapping of a character,
/// which depends on the character alone and yields at least one
/// character.
#[verifier::external_body]
fn char_uppercase(c: char) -> (r: String)
    ensures
        r@ == upper_of(c),
        r@.len() >= 1,
{
    c.to_uppercase().collect()
}

/// Uppercases the first character of `item` and leaves the rest
/// unchanged.
pub fn capitalize_first_letter(item: &str) -> (r: String)
    ensures
        item@.len() == 0 ==> r@ == Seq::<char>::empty(),
        item@.len() > 0 ==> r@ == upper_of(item@[0]) + item@.skip(1),
{
    let n = item.unicode_len();
    if n == 0 {
        return String::new();
    }
    let first = item.get_char(0);
    let mut r = char_uppercase(first);
    r.append(item.substring_char(1, n));
    proof {
        assert(item@.subrange(1, n as int) =~= item@.skip(1));
    }
    r
}

/// The form body that the authentication request carries.
pub fn auth_request_body(email: &str, password: &str) -> (r: String)
    ensures
        r@ == "email="@ + email@ + "&password="@ + password@,
{
    String::from_str("email=").concat(email).concat("&password=").concat(password)
}

/// The remote list endpoint for a list id.
pub fn list_url(list_uuid: &str) -> (r: String)
    ensures
        r@ == "https://api.getbring.com/rest/v2/bringlists/"@ + list_uuid@,
{
    String::from_str("https://api.getbring.com/rest/v2/bringlists/").concat(list_uuid)
}

/// The form body of a list edit: which list, which item, whether it is
/// added or removed, and an optional specification of amount.
pub open spec fn edit_body_view(
    list_uuid: Seq<char>,
    item: Seq<char>,
    specification: Option<Seq<char>>,
    action: Action,
) -> Seq<char> {
    let base = if action is ADD {
        "uuid="@ + list_uuid + "&purchase="@ + item
    } else {
        "uuid="@ + list_uuid + "&remove="@ + item
    };
    match specification {
        Some(s) => base + "&specification="@ + s,
        None => base,
    }
}

/// Builds the form body that edits the remote list.
pub fn edit_list_body(
    list_uuid: &str,
    item: &str,
    specification: Option<&str>,
    action: &Action,
) -> (r: String)
    ensures
        r@ == edit_body_view(
            list_uuid@,
            item@,
            match specification {
                Some(s) => Some(s@),
                None => None,
            },
            *action,
        ),
{
    let base = match action {
        Action::ADD => String::from_str("uuid=").concat(list_uuid).concat("&purchase=").concat(
            item,
        ),
        Action::REMOVE => String::from_str("uuid=").concat(list_uuid).concat("&remove=").concat(
            item,
        ),
    };
    match specification {
        Some(s) => base.concat("&specification=").concat(s),
        None => base,
    }
}

/// Space-separated concatenation of the given parts, in order.
pub open spec fn joined(parts: Seq<Seq<char>>) -> Seq<char>
    decreases parts.len(),
{
    if parts.len() == 0 {
        Seq::empty()
    } else if parts.len() == 1 {
        parts[0]
    } else {
        joined(parts.drop_last()) + " "@ + parts.last()
    }
}

/// Joins command-line words into a single item name, as the shopping
/// list shows it.
pub fn join_words(words: &Vec<String>) -> (r: String)
    ensures
        r@ == joined(words@.map_values(|w: String| w@)),
{
    let ghost parts = words@.map_values(|w: String| w@);
    let mut r = String::new();
    let mut i: usize = 0;
    proof {
        assert(parts.take(0) =~= Seq::<Seq<char>>::empty());
    }
    while i < words.len()
        invariant
            i <= words@.len(),
            parts == words@.map_values(|w: String| w@),
            r@ == joined(parts.take(i as int)),
        decreases words@.len() - i,
    {
        if i > 0 {
            r.append(" ");
        }
        r.append(words[i].as_str());
        proof {
            assert(parts.take(i + 1).drop_last() =~= parts.take(i as int));
            assert(parts.take(i + 1).last() == parts[i as int]);
            if i == 0 {
                assert(r@ =~= joined(parts.take(1)));
            }
        }
        i += 1;
    }
    proof {
        assert(parts.take(words@.len() as int) =~= parts);
    }
    r
}

/// One displayed block of the shopping list: the item name, its optional
/// specification, and the separator line that closes the block.
pub open spec fn purchase_block(name: Seq<char>, info: Option<Seq<char>>) -> Seq<char> {
    "Name: "@ + name + "\n"@ + (match info {
        Some(s) => "Info: "@ + s + "\n"@,
        None => Seq::<char>::empty(),
    }) + "-------------\n"@
}

/// The displayed blocks of all items, in order.
pub open spec fn purchase_blocks(items: Seq<(Seq<char>, Option<Seq<char>>)>) -> Seq<char>
    decreases items.len(),
{
    if items.len() == 0 {
        Seq::empty()
    } else {
        purchase_blocks(items.drop_last()) + purchase_block(
            items.last().0,
            items.last().1,
        )
    }
}

/// The items of the remote list as view pairs.
pub open spec fn purchase_view(items: Seq<(String, Option<String>)>) -> Seq<
    (Seq<char>, Option<Seq<char>>),
> {
    items.map_values(
        |e: (String, Option<String>)|
            (
                e.0@,
                match e.1 {
                    Some(s) => Some(s@),
                    None => None,
                },
            ),
    )
}

/// Renders the remote shopping list for display: an opening separator,
/// then each item's name, optional specification, and closing separator.
pub fn format_purchase_list(items: &Vec<(String, Option<String>)>) -> (r: String)
    ensures
        r@ == "-------------\n"@ + purchase_blocks(purchase_view(items@)),
{
    let ghost pv = purchase_view(items@);
    let mut r = String::from_str("-------------\n");
    let mut i: usize = 0;
    proof {
        assert(pv.take(0) =~= Seq::<(Seq<char>, Option<Seq<char>>)>::empty());
        assert(r@ =~= "-------------\n"@ + purchase_blocks(pv.take(0)));
    }
    while i < items.len()
        invariant
            i <= items@.len(),
            pv == purchase_view(items@),
            r@ == "-------------\n"@ + purchase_blocks(pv.take(i as int)),
        decreases items@.len() - i,
    {
        let ghost before = r@;
        r.append("Name: ");
        r.append(items[i].0.as_str());
        r.append("\n");
        match &items[i].1 {
            Some(s) => {
                r.append("Info: ");
                r.append(s.as_str());
                r.append("\n");
            },
            None => {},
        }
        r.append("-------------\n");
        proof {
            assert(pv.take(i + 1).drop_last() =~= pv.take(i as int));
            assert(pv.take(i + 1).last() == pv[i as int]);
            assert(r@ =~= before + purchase_block(pv[i as int].0, pv[i as int].1));
        }
        i += 1;
    }
    proof {
        assert(pv.take(items@.len() as int) =~= pv);
    }
    r
}

/// Builds login credentials from the fields of an authentication
/// response, converting the relative expiration into an absolute Unix
/// timestamp at instant `now`.
pub fn login_info_from_fields(
    access_token: Option<String>,
    list_uuid: Option<String>,
    expires_in: Option<i64>,
    now: i64,
) -> (r: Result<LoginInfo, CredentialError>)
    requires
        (access_token is Some && list_uuid is Some && expires_in is Some) ==> i64::MIN <= now
            + expires_in->Some_0 <= i64::MAX,
    ensures
        match r {
            Ok(li) => access_token is Some && list_uuid is Some && expires_in is Some
                && li.auth_token == access_token->Some_0 && li.list_uuid == list_uuid->Some_0
                && li.expiration_timestamp == now + expires_in->Some_0,
            Err(e) => match e {
                CredentialError::MissingToken => access_token is None,
                CredentialError::MissingListUuid => access_token is Some && list_uuid is None,
                CredentialError::MissingExpiration => access_token is Some && list_uuid is Some
                    && expires_in is None,
            },
        },
{
    let token = match access_token {
        Some(t) => t,
        None => {
            return Err(CredentialError::MissingToken);
        },
    };
    let uuid = match list_uuid {
        Some(u) => u,
        None => {
            return Err(CredentialError::MissingListUuid);
        },
    };
    let secs = match expires_in {
        Some(s) => s,
        None => {
            return Err(CredentialError::MissingExpiration);
        },
    };
    Ok(LoginInfo { auth_token: token, list_uuid: uuid, expiration_timestamp: now + secs })
}

} // verus!
