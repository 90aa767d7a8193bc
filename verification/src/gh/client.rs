//! The GitHub GraphQL client: where it sends requests, how it signs them,
//! and how it reads the replies.
use vstd::prelude::*;
use vstd::string::*;

verus! {

/// A client of GitHub's GraphQL API.
pub struct GhClient {
    graphql_url: String,
    token: String,
}

/// Why a GitHub request failed.
pub enum GhError {
    /// The server answered with a status outside 200..=299.
    RequestFailed { status: u16, body: String },
    /// The reply listed GraphQL errors; their messages, joined by `, `.
    GraphQl { messages: String },
    /// The reply held no data where data was expected.
    MissingData,
}

/// The items of `list` with `sep` between each two.
pub open spec fn joined(list: Seq<Seq<char>>, sep: Seq<char>) -> Seq<char>
    decreases list.len(),
{
    if list.len() == 0 {
        seq![]
    } else if list.len() == 1 {
        list[0]
    } else {
        joined(list.drop_last(), sep) + sep + list.last()
    }
}

/// The messages of `list`, joined by `, `.
pub fn join_messages(list: &Vec<String>) -> (r: String)
    ensures
        r@ == joined(list@.map_values(|s: String| s@), ", "@),
{
    let ghost views = list@.map_values(|s: String| s@);
    let mut out = String::new();
    let mut i: usize = 0;
    while i < list.len()
        invariant
            i <= list@.len(),
            views == list@.map_values(|s: String| s@),
            out@ == joined(views.take(i as int), ", "@),
        decreases list.len() - i,
    {
        proof {
            assert(views.take(i + 1).drop_last() =~= views.take(i as int));
            assert(views.take(i + 1).last() == list@[i as int]@);
        }
        if i > 0 {
            out.append(", ");
        } else {
            proof {
                assert(views.take(0).len() == 0);
                assert(out@ =~= Seq::<char>::empty());
            }
        }
        out.append(list[i].as_str());
        proof {
            if i == 0 {
                assert(out@ =~= views.take(1)[0]);
            }
        }
        i = i + 1;
    }
    assert(views.take(list@.len() as int) =~= views);
    out
}

impl GhClient {
    /// The GraphQL endpoint that requests go to.
    pub closed spec fn endpoint(&self) -> Seq<char> {
        self.graphql_url@
    }

    /// The token that requests are signed with.
    pub closed spec fn token_view(&self) -> Seq<char> {
        self.token@
    }

    /// A client of `<base>/graphql`, `base` being the given override or
    /// `https://api.github.com`, signing with `token`.
    pub fn new(token: &str, base_url_override: Option<&str>) -> (c: Self)
        ensures
            c.endpoint() == (match base_url_override {
                Some(b) => b@,
                None => "https://api.github.com"@,
            }) + "/graphql"@,
            c.token_view() == token@,
    {
        let base = match base_url_override {
            Some(b) => b,
            None => "https://api.github.com",
        };
        GhClient { graphql_url: String::from_str(base).concat("/graphql"), token: String::from_str(token) }
    }

    /// The GraphQL endpoint.
    pub fn graphql_url(&self) -> (r: &str)
        ensures
            r@ == self.endpoint(),
    {
        self.graphql_url.as_str()
    }

    /// The value of the `Authorization` header: `bearer <token>`.
    pub fn authorization(&self) -> (r: String)
        ensures
            r@ == "bearer "@ + self.token_view(),
    {
        String::from_str("bearer ").concat(self.token.as_str())
    }
}

/// Whether an HTTP status means success.
pub open spec fn is_success(status: u16) -> bool {
    200 <= status <= 299
}

/// Fails with the status and body unless the status means success.
pub fn check_status(status: u16, body: String) -> (r: Result<(), GhError>)
    ensures
        r is Ok <==> is_success(status),
        r matches Err(GhError::RequestFailed { status: s, body: b }) ==> s == status && b == body,
        !(r matches Err(GhError::GraphQl { .. })) && !(r matches Err(GhError::MissingData)),
{
    if 200 <= status && status <= 299 {
        Ok(())
    } else {
        Err(GhError::RequestFailed { status, body })
    }
}

/// Reads a GraphQL reply: its errors, when it lists any, else its data, and
/// `MissingData` when there is none.
pub fn graphql_result<T>(errors: Option<Vec<String>>, data: Option<T>) -> (r: Result<T, GhError>)
    ensures
        match errors {
            Some(e) if e@.len() > 0 => r matches Err(GhError::GraphQl { messages }) && messages@ == joined(
                e@.map_values(|s: String| s@),
                ", "@,
            ),
            _ => match data {
                Some(d) => r == Ok::<T, GhError>(d),
                None => r matches Err(GhError::MissingData),
            },
        },
{
    if let Some(e) = &errors {
        if e.len() > 0 {
            return Err(GhError::GraphQl { messages: join_messages(e) });
        }
    }
    match data {
        Some(d) => Ok(d),
        None => Err(GhError::MissingData),
    }
}

} // verus!
