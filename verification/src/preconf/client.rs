//! The clients of the preconfirmation server's two interfaces.
use crate::preconf::api::PreconfApiClient;
use vstd::prelude::*;

verus! {

/// `url::ParseError`: says why a text is no URL. Nothing is claimed of it.
#[verifier::external_type_specification]
#[verifier::external_body]
pub struct ExUrlParseError(url::ParseError);

/// The URL that a text spells, in its normal form, if it spells one, as the url crate reads it.
pub uninterp spec fn parsed_url(text: Seq<char>) -> Option<Seq<char>>;

/// `Url::parse` of the url crate: the URL that the text spells, as it displays.
#[verifier::external_body]
fn parse_url(text: &str) -> (parsed: Result<String, url::ParseError>)
    ensures
        (match parsed {
            Ok(url) => parsed_url(text@) == Some(url@),
            Err(_) => parsed_url(text@) is None,
        }),
{
    url::Url::parse(text).map(|url| url.to_string())
}

/// Whether an HTTP status code says that the request succeeded.
pub open spec fn is_success(status: u16) -> bool {
    200 <= status < 300
}

/// The client of the websocket interface.
#[derive(Debug)]
pub struct PreconfWsClient {
    ws_url: String,
}

impl PreconfWsClient {
    /// The address of the server.
    pub closed spec fn url(self) -> Seq<char> {
        self.ws_url@
    }

    /// The address of the server.
    pub fn ws_url(&self) -> (url: &String)
        ensures
            url@ == self.url(),
    {
        &self.ws_url
    }
}

/// The clients of the preconfirmation server, as far as they are to be had.
#[derive(Debug)]
pub struct PreconfClient {
    pub ws: Option<PreconfWsClient>,
    pub api: Option<PreconfApiClient>,
    /// Whether the HTTP interface is used in place of the websocket.
    pub fallback_enabled: bool,
}

/// The address is one, if there is any.
pub open spec fn readable(url: Option<String>) -> bool {
    url is Some ==> parsed_url(url->0@) is Some
}

/// The websocket client is to be used: there is an address, and the server took the connection.
pub open spec fn connected(ws_url: Option<String>, ws_status: u16) -> bool {
    ws_url is Some && is_success(ws_status)
}

/// The clients are those for the given addresses: a websocket client exactly if the connection
/// was taken, else the fallback to the HTTP interface; a client of that exactly if it has an
/// address.
pub open spec fn is_client_for(
    client: PreconfClient,
    ws_url: Option<String>,
    api_url: Option<String>,
    ws_status: u16,
) -> bool {
    &&& client.ws is Some <==> connected(ws_url, ws_status)
    &&& client.ws is Some ==> Some(client.ws->0.url()) == parsed_url(ws_url->0@)
    &&& client.api is Some <==> api_url is Some
    &&& client.api is Some ==> Some(client.api->0.url()) == parsed_url(api_url->0@)
        && client.api->0.known() == Map::<u64, u64>::empty()
    &&& client.fallback_enabled == !connected(ws_url, ws_status)
}

impl PreconfClient {
    /// The clients for the given addresses. `ws_status` is the status code with which the
    /// server answered the connection to `ws_url`; it does not matter where there is no such
    /// address.
    ///
    /// Addresses that are used must be readable.
    pub fn new(ws_url: Option<String>, api_url: Option<String>, ws_status: u16) -> (client: Self)
        requires
            connected(ws_url, ws_status) ==> readable(ws_url),
            readable(api_url),
        ensures
            is_client_for(client, ws_url, api_url, ws_status),
            client.ws is Some <==> ws_url is Some && 200 <= ws_status < 300,
            client.ws is Some ==> parsed_url(ws_url->0@) == Some(client.ws->0.url()),
            client.api is Some <==> api_url is Some,
            client.api is Some ==> parsed_url(api_url->0@) == Some(client.api->0.url())
                && client.api->0.known().dom() == Set::<u64>::empty(),
            client.fallback_enabled == (client.ws is None),
    {
        let mut ws: Option<String> = None;
        let mut api: Option<String> = None;
        if let Some(url) = &ws_url {
            if 200 <= ws_status && ws_status < 300 {
                ws = Some(parse_url(url.as_str()).unwrap());
            }
        }
        if let Some(url) = &api_url {
            api = Some(parse_url(url.as_str()).unwrap());
        }
        Self::from_parsed(ws, api)
    }

    /// The clients for addresses in their normal form. Without a websocket the HTTP interface
    /// is used.
    pub fn from_parsed(ws_url: Option<String>, api_url: Option<String>) -> (client: Self)
        ensures
            client.ws is Some <==> ws_url is Some,
            client.ws is Some ==> client.ws->0.url() == ws_url->0@,
            client.api is Some <==> api_url is Some,
            client.api is Some ==> client.api->0.url() == api_url->0@ && client.api->0.known()
                == Map::<u64, u64>::empty(),
            client.fallback_enabled == (ws_url is None),
            client.fallback_enabled == (client.ws is None),
    {
        let fallback_enabled = ws_url.is_none();
        let ws = match ws_url {
            Some(ws_url) => Some(PreconfWsClient { ws_url }),
            None => None,
        };
        let api = match api_url {
            Some(api_url) => Some(PreconfApiClient::new(api_url)),
            None => None,
        };
        PreconfClient { ws, api, fallback_enabled }
    }

    /// The clients for the given addresses, as [`PreconfClient::new`] gives them, or none if an
    /// address that is used cannot be read.
    pub fn try_new(ws_url: Option<String>, api_url: Option<String>, ws_status: u16) -> (client:
        Option<Self>)
        ensures
            client is Some <==> (connected(ws_url, ws_status) ==> readable(ws_url)) && readable(
                api_url,
            ),
            client is Some ==> is_client_for(client->0, ws_url, api_url, ws_status),
            client is Some <==> (ws_url is Some && 200 <= ws_status < 300 ==> parsed_url(
                ws_url->0@,
            ) is Some) && (api_url is Some ==> parsed_url(api_url->0@) is Some),
            client is Some ==> (client->0.ws is Some <==> ws_url is Some && 200 <= ws_status < 300),
            client is Some && client->0.ws is Some ==> parsed_url(ws_url->0@) == Some(
                client->0.ws->0.url(),
            ),
            client is Some ==> (client->0.api is Some <==> api_url is Some),
            client is Some && client->0.api is Some ==> parsed_url(api_url->0@) == Some(
                client->0.api->0.url(),
            ) && client->0.api->0.known().dom() == Set::<u64>::empty(),
            client is Some ==> client->0.fallback_enabled == (client->0.ws is None),
    {
        if let Some(url) = &ws_url {
            if 200 <= ws_status && ws_status < 300 && parse_url(url.as_str()).is_err() {
                return None;
            }
        }
        if let Some(url) = &api_url {
            if parse_url(url.as_str()).is_err() {
                return None;
            }
        }
        Some(Self::new(ws_url, api_url, ws_status))
    }

    pub fn set_fallback_enabled(&mut self, enabled: bool)
        ensures
            *final(self) == (PreconfClient { fallback_enabled: enabled, ..*old(self) }),
    {
        self.fallback_enabled = enabled;
    }

    pub fn get_fallback_enabled(&self) -> (enabled: bool)
        ensures
            enabled == self.fallback_enabled,
    {
        self.fallback_enabled
    }
}

/// One of the interfaces is always in use: the HTTP interface exactly if there is no websocket
/// client, whatever the addresses and the status. There is a websocket client exactly if it has
/// an address and the status says success, and a client of the HTTP interface exactly if that
/// has an address; each has the address that its own text spells, and knows of no market.
pub proof fn lemma_client_means(
    client: PreconfClient,
    ws_url: Option<String>,
    api_url: Option<String>,
    ws_status: u16,
)
    requires
        is_client_for(client, ws_url, api_url, ws_status),
    ensures
        client.fallback_enabled == (client.ws is None),
        client.ws is Some <==> ws_url is Some && 200 <= ws_status <= 299,
        client.ws is Some ==> parsed_url(ws_url->0@) == Some(client.ws->0.url()),
        client.api is Some <==> api_url is Some,
        client.api is Some ==> parsed_url(api_url->0@) == Some(client.api->0.url()),
        client.api is Some ==> forall|slot: u64| !client.api->0.known().contains_key(slot),
{
}

/// An address that is not there is readable; one that is there is so exactly if it spells a URL.
pub proof fn lemma_readable_means(url: String)
    ensures
        readable(None),
        readable(Some(url)) <==> parsed_url(url@) is Some,
{
}

} // verus!
