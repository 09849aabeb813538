//! Entity metadata known to the collector, the icon host names derived from
//! it, and the retry state of the connection to the classifier service.

use vstd::prelude::*;

use crate::text::{clone_opt_string, opt_string_view, str_eq};

verus! {

/// What a metadata lookup names.
#[derive(Clone, Copy, Debug, PartialEq, Eq, Structural)]
pub enum EntityKind {
    Application,
    Organization,
}

/// Where the icon of an entity can be found.
#[derive(Clone, Debug, Default, PartialEq, Eq)]
pub struct IconMetadata {
    pub domain: Option<String>,
    pub fallback_domains: Vec<String>,
    pub local_fallback: Option<String>,
}

/// Display metadata of an application or organization.
#[derive(Clone, Debug, PartialEq, Eq)]
pub struct EntityMetadata {
    pub id: String,
    pub name: String,
    pub icon: IconMetadata,
}

/// The characters of each string, in order.
pub open spec fn strings_view(v: Seq<String>) -> Seq<Seq<char>> {
    v.map_values(|s: String| s@)
}

/// Icon domain, fallback icon domains and local fallback icon.
pub type IconView = (Option<Seq<char>>, Seq<Seq<char>>, Option<Seq<char>>);

/// Id, display name and icon.
pub type EntityView = (Seq<char>, Seq<char>, IconView);

impl View for IconMetadata {
    type V = IconView;

    open spec fn view(&self) -> IconView {
        (
            opt_string_view(self.domain),
            strings_view(self.fallback_domains@),
            opt_string_view(self.local_fallback),
        )
    }
}

impl View for EntityMetadata {
    type V = EntityView;

    open spec fn view(&self) -> EntityView {
        (self.id@, self.name@, self.icon@)
    }
}

pub open spec fn opt_entity_view(o: Option<EntityMetadata>) -> Option<EntityView> {
    match o {
        Some(m) => Some(m@),
        None => None,
    }
}

/// A built-in metadata row: display name, icon domain, fallback icon domains
/// and local fallback icon.
pub type MetadataRow = (Seq<char>, Option<Seq<char>>, Seq<Seq<char>>, Option<Seq<char>>);

/// A built-in row as static text; the one fallback domain a row may have.
type RowText = (&'static str, Option<&'static str>, Option<&'static str>, Option<&'static str>);

spec fn opt_str_view(o: Option<&str>) -> Option<Seq<char>> {
    match o {
        Some(s) => Some(s@),
        None => None,
    }
}

spec fn row_text_view(r: Option<RowText>) -> Option<MetadataRow> {
    match r {
        Some((name, domain, fallback, local)) => Some(
            (
                name@,
                opt_str_view(domain),
                match fallback {
                    Some(f) => seq![f@],
                    None => seq![],
                },
                opt_str_view(local),
            ),
        ),
        None => None,
    }
}

/// Built-in application rows, first part.
pub open spec fn application_rows_head(id: Seq<char>) -> Option<MetadataRow> {
    if id == "youtube"@ {
        Some(("YouTube"@, Some("youtube.com"@), seq!["googlevideo.com"@], Some("youtube"@)))
    } else if id == "netflix"@ {
        Some(("Netflix"@, Some("netflix.com"@), seq!["nflxvideo.net"@], Some("netflix"@)))
    } else if id == "bilibili"@ {
        Some(("Bilibili"@, Some("bilibili.com"@), seq!["bilivideo.com"@], Some("bilibili"@)))
    } else if id == "github"@ {
        Some(("GitHub"@, Some("github.com"@), seq!["githubassets.com"@], Some("github"@)))
    } else if id == "openai"@ {
        Some(("OpenAI"@, Some("openai.com"@), seq!["chatgpt.com"@], Some("openai"@)))
    } else if id == "steam"@ {
        Some(("Steam"@, Some("steampowered.com"@), seq!["steamcommunity.com"@], Some("steam"@)))
    } else if id == "playstation-network"@ || id == "playstation"@ {
        Some(("PlayStation Network"@, Some("playstation.com"@), seq!["playstation.net"@], Some("playstation"@)))
    } else if id == "nintendo-eshop"@ || id == "nintendo"@ {
        Some(("Nintendo eShop"@, Some("nintendo.com"@), seq!["nintendo.net"@], None))
    } else if id == "spotify"@ {
        Some(("Spotify"@, Some("spotify.com"@), seq![], Some("spotify"@)))
    } else if id == "apple-music"@ {
        Some(("Apple Music"@, Some("music.apple.com"@), seq!["apple.com"@], Some("applemusic"@)))
    } else if id == "icloud"@ {
        Some(("Apple iCloud"@, Some("icloud.com"@), seq!["apple.com"@], Some("icloud"@)))
    } else if id == "slack"@ {
        Some(("Slack"@, Some("slack.com"@), seq![], Some("slack"@)))
    } else if id == "discord"@ {
        Some(("Discord"@, Some("discord.com"@), seq!["discord.gg"@], Some("discord"@)))
    } else if id == "wechat"@ {
        Some(("WeChat"@, Some("weixin.qq.com"@), seq!["qq.com"@], Some("wechat"@)))
    } else if id == "telegram"@ {
        Some(("Telegram"@, Some("telegram.org"@), seq![], Some("telegram"@)))
    } else if id == "reddit"@ {
        Some(("Reddit"@, Some("reddit.com"@), seq!["redd.it"@], Some("reddit"@)))
    } else if id == "microsoft-365"@ || id == "microsoft"@ {
        Some(("Microsoft 365"@, Some("office.com"@), seq!["microsoft.com"@], Some("microsoft"@)))
    } else if id == "notion"@ {
        Some(("Notion"@, Some("notion.so"@), seq![], Some("notion"@)))
    } else if id == "amazon-prime-video"@ || id == "primevideo"@ {
        Some(("Prime Video"@, Some("primevideo.com"@), seq!["amazon.com"@], Some("primevideo"@)))
    } else {
        None
    }
}

/// Built-in application rows, second part.
pub open spec fn application_rows_tail(id: Seq<char>) -> Option<MetadataRow> {
    if id == "docker-hub"@ || id == "docker"@ {
        Some(("Docker Hub"@, Some("docker.com"@), seq!["docker.io"@], Some("docker"@)))
    } else if id == "wikipedia"@ {
        Some(("Wikipedia"@, Some("wikipedia.org"@), seq![], Some("wikipedia"@)))
    } else if id == "cloudflare-dns"@ || id == "cloudflare"@ {
        Some(("Cloudflare"@, Some("cloudflare.com"@), seq!["1.1.1.1"@], Some("cloudflare"@)))
    } else if id == "google-dns"@ || id == "google"@ {
        Some(("Google"@, Some("google.com"@), seq!["dns.google"@], Some("google"@)))
    } else if id == "ntp"@ {
        Some(("NTP Service"@, Some("cloudflare.com"@), seq!["pool.ntp.org"@], None))
    } else if id == "twitch"@ {
        Some(("Twitch"@, Some("twitch.tv"@), seq![], Some("twitch"@)))
    } else if id == "aqara-cloud"@ || id == "aqara"@ {
        Some(("Aqara IoT"@, Some("aqara.com"@), seq![], None))
    } else if id == "cloudflare-backup"@ {
        Some(("Cloudflare R2"@, Some("cloudflare.com"@), seq![], Some("cloudflare"@)))
    } else if id == "nas-smb"@ {
        Some(("LAN File Sharing"@, None, seq![], None))
    } else if id == "plex"@ {
        Some(("Plex Media Server"@, Some("plex.tv"@), seq![], Some("plex"@)))
    } else if id == "synology-dsm"@ || id == "synology"@ {
        Some(("Synology DSM"@, Some("synology.com"@), seq![], Some("synology"@)))
    } else if id == "speedtest"@ {
        Some(("Speedtest"@, Some("speedtest.net"@), seq![], Some("speedtest"@)))
    } else if id == "xiaohongshu"@ {
        Some(("Xiaohongshu"@, None, seq![], Some("xiaohongshu"@)))
    } else if id == "tiktok"@ {
        Some(("TikTok"@, Some("tiktok.com"@), seq![], Some("tiktok"@)))
    } else if id == "twitter"@ || id == "x"@ {
        Some(("X"@, Some("x.com"@), seq!["twitter.com"@], Some("x"@)))
    } else if id == "facebook"@ {
        Some(("Facebook"@, Some("facebook.com"@), seq![], Some("facebook"@)))
    } else if id == "instagram"@ {
        Some(("Instagram"@, Some("instagram.com"@), seq![], Some("instagram"@)))
    } else if id == "zoom"@ {
        Some(("Zoom"@, Some("zoom.us"@), seq![], Some("zoom"@)))
    } else if id == "whatsapp"@ {
        Some(("WhatsApp"@, Some("whatsapp.com"@), seq![], Some("whatsapp"@)))
    } else {
        None
    }
}

/// Built-in organization rows, first part.
pub open spec fn organization_rows_head(id: Seq<char>) -> Option<MetadataRow> {
    if id == "google"@ {
        Some(("Google"@, Some("google.com"@), seq![], Some("google"@)))
    } else if id == "apple"@ {
        Some(("Apple"@, Some("apple.com"@), seq![], Some("apple"@)))
    } else if id == "microsoft"@ {
        Some(("Microsoft"@, Some("microsoft.com"@), seq![], Some("microsoft"@)))
    } else if id == "amazon"@ {
        Some(("Amazon"@, Some("amazon.com"@), seq![], Some("amazon"@)))
    } else if id == "meta"@ {
        Some(("Meta"@, Some("meta.com"@), seq![], Some("meta"@)))
    } else if id == "netflix"@ {
        Some(("Netflix"@, Some("netflix.com"@), seq![], Some("netflix"@)))
    } else if id == "bilibili"@ {
        Some(("Bilibili"@, Some("bilibili.com"@), seq![], Some("bilibili"@)))
    } else if id == "github"@ {
        Some(("GitHub"@, Some("github.com"@), seq![], Some("github"@)))
    } else if id == "openai"@ {
        Some(("OpenAI"@, Some("openai.com"@), seq![], Some("openai"@)))
    } else if id == "valve"@ {
        Some(("Valve"@, Some("valvesoftware.com"@), seq![], Some("valve"@)))
    } else if id == "sony"@ {
        Some(("Sony"@, Some("sony.com"@), seq![], Some("sony"@)))
    } else if id == "nintendo"@ {
        Some(("Nintendo"@, Some("nintendo.com"@), seq![], None))
    } else if id == "spotify"@ {
        Some(("Spotify"@, Some("spotify.com"@), seq![], Some("spotify"@)))
    } else {
        None
    }
}

/// Built-in organization rows, second part.
pub open spec fn organization_rows_tail(id: Seq<char>) -> Option<MetadataRow> {
    if id == "salesforce"@ {
        Some(("Salesforce"@, Some("salesforce.com"@), seq![], Some("salesforce"@)))
    } else if id == "discord"@ {
        Some(("Discord"@, Some("discord.com"@), seq![], Some("discord"@)))
    } else if id == "tencent"@ {
        Some(("Tencent"@, Some("tencent.com"@), seq![], None))
    } else if id == "telegram"@ {
        Some(("Telegram"@, Some("telegram.org"@), seq![], Some("telegram"@)))
    } else if id == "reddit"@ {
        Some(("Reddit"@, Some("reddit.com"@), seq![], Some("reddit"@)))
    } else if id == "notion"@ {
        Some(("Notion Labs"@, Some("notion.so"@), seq![], Some("notion"@)))
    } else if id == "docker"@ {
        Some(("Docker"@, Some("docker.com"@), seq![], Some("docker"@)))
    } else if id == "wikimedia"@ {
        Some(("Wikimedia"@, Some("wikimedia.org"@), seq![], Some("wikipedia"@)))
    } else if id == "cloudflare"@ {
        Some(("Cloudflare"@, Some("cloudflare.com"@), seq![], Some("cloudflare"@)))
    } else if id == "synology"@ {
        Some(("Synology"@, Some("synology.com"@), seq![], Some("synology"@)))
    } else if id == "lumi"@ {
        Some(("Lumi / Aqara"@, Some("aqara.com"@), seq![], None))
    } else if id == "xingyin"@ {
        Some(("Xingyin"@, Some("xiaohongshu.com"@), seq![], None))
    } else {
        None
    }
}
fn application_rows_head_exec(id: &str) -> (r: Option<RowText>)
    ensures
        row_text_view(r) == application_rows_head(id@),
{
    if str_eq(id, "youtube") {
        Some(("YouTube", Some("youtube.com"), Some("googlevideo.com"), Some("youtube")))
    } else if str_eq(id, "netflix") {
        Some(("Netflix", Some("netflix.com"), Some("nflxvideo.net"), Some("netflix")))
    } else if str_eq(id, "bilibili") {
        Some(("Bilibili", Some("bilibili.com"), Some("bilivideo.com"), Some("bilibili")))
    } else if str_eq(id, "github") {
        Some(("GitHub", Some("github.com"), Some("githubassets.com"), Some("github")))
    } else if str_eq(id, "openai") {
        Some(("OpenAI", Some("openai.com"), Some("chatgpt.com"), Some("openai")))
    } else if str_eq(id, "steam") {
        Some(("Steam", Some("steampowered.com"), Some("steamcommunity.com"), Some("steam")))
    } else if str_eq(id, "playstation-network") || str_eq(id, "playstation") {
        Some(("PlayStation Network", Some("playstation.com"), Some("playstation.net"), Some("playstation")))
    } else if str_eq(id, "nintendo-eshop") || str_eq(id, "nintendo") {
        Some(("Nintendo eShop", Some("nintendo.com"), Some("nintendo.net"), None))
    } else if str_eq(id, "spotify") {
        Some(("Spotify", Some("spotify.com"), None, Some("spotify")))
    } else if str_eq(id, "apple-music") {
        Some(("Apple Music", Some("music.apple.com"), Some("apple.com"), Some("applemusic")))
    } else if str_eq(id, "icloud") {
        Some(("Apple iCloud", Some("icloud.com"), Some("apple.com"), Some("icloud")))
    } else if str_eq(id, "slack") {
        Some(("Slack", Some("slack.com"), None, Some("slack")))
    } else if str_eq(id, "discord") {
        Some(("Discord", Some("discord.com"), Some("discord.gg"), Some("discord")))
    } else if str_eq(id, "wechat") {
        Some(("WeChat", Some("weixin.qq.com"), Some("qq.com"), Some("wechat")))
    } else if str_eq(id, "telegram") {
        Some(("Telegram", Some("telegram.org"), None, Some("telegram")))
    } else if str_eq(id, "reddit") {
        Some(("Reddit", Some("reddit.com"), Some("redd.it"), Some("reddit")))
    } else if str_eq(id, "microsoft-365") || str_eq(id, "microsoft") {
        Some(("Microsoft 365", Some("office.com"), Some("microsoft.com"), Some("microsoft")))
    } else if str_eq(id, "notion") {
        Some(("Notion", Some("notion.so"), None, Some("notion")))
    } else if str_eq(id, "amazon-prime-video") || str_eq(id, "primevideo") {
        Some(("Prime Video", Some("primevideo.com"), Some("amazon.com"), Some("primevideo")))
    } else {
        None
    }
}

fn application_rows_tail_exec(id: &str) -> (r: Option<RowText>)
    ensures
        row_text_view(r) == application_rows_tail(id@),
{
    if str_eq(id, "docker-hub") || str_eq(id, "docker") {
        Some(("Docker Hub", Some("docker.com"), Some("docker.io"), Some("docker")))
    } else if str_eq(id, "wikipedia") {
        Some(("Wikipedia", Some("wikipedia.org"), None, Some("wikipedia")))
    } else if str_eq(id, "cloudflare-dns") || str_eq(id, "cloudflare") {
        Some(("Cloudflare", Some("cloudflare.com"), Some("1.1.1.1"), Some("cloudflare")))
    } else if str_eq(id, "google-dns") || str_eq(id, "google") {
        Some(("Google", Some("google.com"), Some("dns.google"), Some("google")))
    } else if str_eq(id, "ntp") {
        Some(("NTP Service", Some("cloudflare.com"), Some("pool.ntp.org"), None))
    } else if str_eq(id, "twitch") {
        Some(("Twitch", Some("twitch.tv"), None, Some("twitch")))
    } else if str_eq(id, "aqara-cloud") || str_eq(id, "aqara") {
        Some(("Aqara IoT", Some("aqara.com"), None, None))
    } else if str_eq(id, "cloudflare-backup") {
        Some(("Cloudflare R2", Some("cloudflare.com"), None, Some("cloudflare")))
    } else if str_eq(id, "nas-smb") {
        Some(("LAN File Sharing", None, None, None))
    } else if str_eq(id, "plex") {
        Some(("Plex Media Server", Some("plex.tv"), None, Some("plex")))
    } else if str_eq(id, "synology-dsm") || str_eq(id, "synology") {
        Some(("Synology DSM", Some("synology.com"), None, Some("synology")))
    } else if str_eq(id, "speedtest") {
        Some(("Speedtest", Some("speedtest.net"), None, Some("speedtest")))
    } else if str_eq(id, "xiaohongshu") {
        Some(("Xiaohongshu", None, None, Some("xiaohongshu")))
    } else if str_eq(id, "tiktok") {
        Some(("TikTok", Some("tiktok.com"), None, Some("tiktok")))
    } else if str_eq(id, "twitter") || str_eq(id, "x") {
        Some(("X", Some("x.com"), Some("twitter.com"), Some("x")))
    } else if str_eq(id, "facebook") {
        Some(("Facebook", Some("facebook.com"), None, Some("facebook")))
    } else if str_eq(id, "instagram") {
        Some(("Instagram", Some("instagram.com"), None, Some("instagram")))
    } else if str_eq(id, "zoom") {
        Some(("Zoom", Some("zoom.us"), None, Some("zoom")))
    } else if str_eq(id, "whatsapp") {
        Some(("WhatsApp", Some("whatsapp.com"), None, Some("whatsapp")))
    } else {
        None
    }
}

fn organization_rows_head_exec(id: &str) -> (r: Option<RowText>)
    ensures
        row_text_view(r) == organization_rows_head(id@),
{
    if str_eq(id, "google") {
        Some(("Google", Some("google.com"), None, Some("google")))
    } else if str_eq(id, "apple") {
        Some(("Apple", Some("apple.com"), None, Some("apple")))
    } else if str_eq(id, "microsoft") {
        Some(("Microsoft", Some("microsoft.com"), None, Some("microsoft")))
    } else if str_eq(id, "amazon") {
        Some(("Amazon", Some("amazon.com"), None, Some("amazon")))
    } else if str_eq(id, "meta") {
        Some(("Meta", Some("meta.com"), None, Some("meta")))
    } else if str_eq(id, "netflix") {
        Some(("Netflix", Some("netflix.com"), None, Some("netflix")))
    } else if str_eq(id, "bilibili") {
        Some(("Bilibili", Some("bilibili.com"), None, Some("bilibili")))
    } else if str_eq(id, "github") {
        Some(("GitHub", Some("github.com"), None, Some("github")))
    } else if str_eq(id, "openai") {
        Some(("OpenAI", Some("openai.com"), None, Some("openai")))
    } else if str_eq(id, "valve") {
        Some(("Valve", Some("valvesoftware.com"), None, Some("valve")))
    } else if str_eq(id, "sony") {
        Some(("Sony", Some("sony.com"), None, Some("sony")))
    } else if str_eq(id, "nintendo") {
        Some(("Nintendo", Some("nintendo.com"), None, None))
    } else if str_eq(id, "spotify") {
        Some(("Spotify", Some("spotify.com"), None, Some("spotify")))
    } else {
        None
    }
}

fn organization_rows_tail_exec(id: &str) -> (r: Option<RowText>)
    ensures
        row_text_view(r) == organization_rows_tail(id@),
{
    if str_eq(id, "salesforce") {
        Some(("Salesforce", Some("salesforce.com"), None, Some("salesforce")))
    } else if str_eq(id, "discord") {
        Some(("Discord", Some("discord.com"), None, Some("discord")))
    } else if str_eq(id, "tencent") {
        Some(("Tencent", Some("tencent.com"), None, None))
    } else if str_eq(id, "telegram") {
        Some(("Telegram", Some("telegram.org"), None, Some("telegram")))
    } else if str_eq(id, "reddit") {
        Some(("Reddit", Some("reddit.com"), None, Some("reddit")))
    } else if str_eq(id, "notion") {
        Some(("Notion Labs", Some("notion.so"), None, Some("notion")))
    } else if str_eq(id, "docker") {
        Some(("Docker", Some("docker.com"), None, Some("docker")))
    } else if str_eq(id, "wikimedia") {
        Some(("Wikimedia", Some("wikimedia.org"), None, Some("wikipedia")))
    } else if str_eq(id, "cloudflare") {
        Some(("Cloudflare", Some("cloudflare.com"), None, Some("cloudflare")))
    } else if str_eq(id, "synology") {
        Some(("Synology", Some("synology.com"), None, Some("synology")))
    } else if str_eq(id, "lumi") {
        Some(("Lumi / Aqara", Some("aqara.com"), None, None))
    } else if str_eq(id, "xingyin") {
        Some(("Xingyin", Some("xiaohongshu.com"), None, None))
    } else {
        None
    }
}

/// The built-in row for an entity, when there is one.
pub open spec fn metadata_row(kind: EntityKind, id: Seq<char>) -> Option<MetadataRow> {
    match kind {
        EntityKind::Application => match application_rows_head(id) {
            Some(row) => Some(row),
            None => application_rows_tail(id),
        },
        EntityKind::Organization => match organization_rows_head(id) {
            Some(row) => Some(row),
            None => organization_rows_tail(id),
        },
    }
}

/// The metadata the collector ships for an entity, under the id it was asked for.
pub open spec fn fallback_metadata_spec(kind: EntityKind, id: Seq<char>) -> Option<EntityView> {
    match metadata_row(kind, id) {
        Some(row) => Some((id, row.0, (row.1, row.2, row.3))),
        None => None,
    }
}

fn owned_opt(o: Option<&str>) -> (r: Option<String>)
    ensures
        opt_string_view(r) == opt_str_view(o),
{
    match o {
        Some(s) => Some(s.to_owned()),
        None => None,
    }
}

fn metadata_from_row(id: &str, row: RowText) -> (m: EntityMetadata)
    ensures
        row_text_view(Some(row)) matches Some(r) && m@ == (id@, r.0, (r.1, r.2, r.3)),
{
    let (name, domain, fallback, local) = row;
    let mut fallback_domains: Vec<String> = Vec::new();
    match fallback {
        Some(f) => {
            fallback_domains.push(f.to_owned());
        },
        None => {},
    }
    let m = EntityMetadata {
        id: id.to_owned(),
        name: name.to_owned(),
        icon: IconMetadata {
            domain: owned_opt(domain),
            fallback_domains,
            local_fallback: owned_opt(local),
        },
    };
    assert(strings_view(m.icon.fallback_domains@) =~= match fallback {
        Some(f) => seq![f@],
        None => seq![],
    });
    m
}

/// The metadata the collector ships for applications and organizations that
/// the classifier service cannot describe.
pub fn fallback_metadata(kind: EntityKind, id: &str) -> (r: Option<EntityMetadata>)
    ensures
        opt_entity_view(r) == fallback_metadata_spec(kind, id@),
{
    let row = match kind {
        EntityKind::Application => match application_rows_head_exec(id) {
            Some(row) => Some(row),
            None => application_rows_tail_exec(id),
        },
        EntityKind::Organization => match organization_rows_head_exec(id) {
            Some(row) => Some(row),
            None => organization_rows_tail_exec(id),
        },
    };
    assert(row_text_view(row) == metadata_row(kind, id@));
    match row {
        Some(row) => Some(metadata_from_row(id, row)),
        None => None,
    }
}

/// The metadata of an entity: what the classifier service reported, or else
/// the built-in row.
pub fn resolve_metadata(remote: Option<EntityMetadata>, kind: EntityKind, id: &str) -> (r: Option<
    EntityMetadata,
>)
    ensures
        remote is Some ==> r == remote,
        remote is None ==> opt_entity_view(r) == fallback_metadata_spec(kind, id@),
{
    match remote {
        Some(m) => Some(m),
        None => fallback_metadata(kind, id),
    }
}

/// The organization a built-in application belongs to.
pub open spec fn application_organization(id: Seq<char>) -> Option<Seq<char>> {
    if id == "youtube"@ || id == "google-dns"@ {
        Some("google"@)
    } else if id == "netflix"@ {
        Some("netflix"@)
    } else if id == "bilibili"@ {
        Some("bilibili"@)
    } else if id == "github"@ {
        Some("github"@)
    } else if id == "openai"@ {
        Some("openai"@)
    } else if id == "steam"@ {
        Some("valve"@)
    } else if id == "playstation-network"@ {
        Some("sony"@)
    } else if id == "nintendo-eshop"@ {
        Some("nintendo"@)
    } else if id == "spotify"@ {
        Some("spotify"@)
    } else if id == "apple-music"@ || id == "icloud"@ {
        Some("apple"@)
    } else if id == "slack"@ {
        Some("salesforce"@)
    } else if id == "discord"@ {
        Some("discord"@)
    } else if id == "wechat"@ {
        Some("tencent"@)
    } else if id == "telegram"@ {
        Some("telegram"@)
    } else if id == "reddit"@ {
        Some("reddit"@)
    } else if id == "microsoft-365"@ {
        Some("microsoft"@)
    } else if id == "notion"@ {
        Some("notion"@)
    } else if id == "amazon-prime-video"@ || id == "twitch"@ {
        Some("amazon"@)
    } else if id == "docker-hub"@ {
        Some("docker"@)
    } else if id == "wikipedia"@ {
        Some("wikimedia"@)
    } else if id == "cloudflare-dns"@ || id == "cloudflare-backup"@ {
        Some("cloudflare"@)
    } else if id == "synology-dsm"@ {
        Some("synology"@)
    } else if id == "aqara-cloud"@ {
        Some("lumi"@)
    } else if id == "xiaohongshu"@ {
        Some("xingyin"@)
    } else {
        None
    }
}

/// The organization id of a built-in application, when one is known.
pub fn fallback_application_org_id(id: &str) -> (r: Option<String>)
    ensures
        opt_string_view(r) == application_organization(id@),
{
    let org = if str_eq(id, "youtube") || str_eq(id, "google-dns") {
        "google"
    } else if str_eq(id, "netflix") {
        "netflix"
    } else if str_eq(id, "bilibili") {
        "bilibili"
    } else if str_eq(id, "github") {
        "github"
    } else if str_eq(id, "openai") {
        "openai"
    } else if str_eq(id, "steam") {
        "valve"
    } else if str_eq(id, "playstation-network") {
        "sony"
    } else if str_eq(id, "nintendo-eshop") {
        "nintendo"
    } else if str_eq(id, "spotify") {
        "spotify"
    } else if str_eq(id, "apple-music") || str_eq(id, "icloud") {
        "apple"
    } else if str_eq(id, "slack") {
        "salesforce"
    } else if str_eq(id, "discord") {
        "discord"
    } else if str_eq(id, "wechat") {
        "tencent"
    } else if str_eq(id, "telegram") {
        "telegram"
    } else if str_eq(id, "reddit") {
        "reddit"
    } else if str_eq(id, "microsoft-365") {
        "microsoft"
    } else if str_eq(id, "notion") {
        "notion"
    } else if str_eq(id, "amazon-prime-video") || str_eq(id, "twitch") {
        "amazon"
    } else if str_eq(id, "docker-hub") {
        "docker"
    } else if str_eq(id, "wikipedia") {
        "wikimedia"
    } else if str_eq(id, "cloudflare-dns") || str_eq(id, "cloudflare-backup") {
        "cloudflare"
    } else if str_eq(id, "synology-dsm") {
        "synology"
    } else if str_eq(id, "aqara-cloud") {
        "lumi"
    } else if str_eq(id, "xiaohongshu") {
        "xingyin"
    } else {
        return None;
    };
    Some(org.to_owned())
}

/// The icon host names an entity names: its icon domain, then its fallback
/// domains.
pub open spec fn icon_candidates_spec(e: EntityView) -> Seq<Seq<char>> {
    match e.2.0 {
        Some(d) => seq![d] + e.2.1,
        None => e.2.1,
    }
}

/// The first occurrence of each element, in order.
pub open spec fn dedupe_spec(s: Seq<Seq<char>>) -> Seq<Seq<char>>
    decreases s.len(),
{
    if s.len() == 0 {
        s
    } else if s.drop_last().contains(s.last()) {
        dedupe_spec(s.drop_last())
    } else {
        dedupe_spec(s.drop_last()).push(s.last())
    }
}

/// Deduplication keeps exactly the elements of its input, each once.
pub proof fn lemma_dedupe(s: Seq<Seq<char>>)
    ensures
        forall|x: Seq<char>| #[trigger] dedupe_spec(s).contains(x) <==> s.contains(x),
        forall|i: int, j: int|
            0 <= i < j < dedupe_spec(s).len() ==> dedupe_spec(s)[i] != dedupe_spec(s)[j],
    decreases s.len(),
{
    if s.len() > 0 {
        let init = s.drop_last();
        lemma_dedupe(init);
        assert(s =~= init.push(s.last()));
        assert forall|x: Seq<char>| s.contains(x) <==> (init.contains(x) || x == s.last()) by {
            if s.contains(x) {
                let k = choose|k: int| 0 <= k < s.len() && s[k] == x;
                if k < s.len() - 1 {
                    assert(init[k] == x);
                }
            }
            if init.contains(x) {
                let k = choose|k: int| 0 <= k < init.len() && init[k] == x;
                assert(s[k] == x);
            }
            if x == s.last() {
                assert(s[s.len() - 1] == x);
            }
        }
        if init.contains(s.last()) {
            assert(dedupe_spec(s) == dedupe_spec(init));
            assert forall|x: Seq<char>| #[trigger] dedupe_spec(s).contains(x) <==> s.contains(x) by {
                assert(dedupe_spec(init).contains(x) <==> init.contains(x));
            }
        } else {
            let d = dedupe_spec(init);
            assert(dedupe_spec(s) == d.push(s.last()));
            assert forall|x: Seq<char>| d.push(s.last()).contains(x) <==> (d.contains(x) || x
                == s.last()) by {
                if d.push(s.last()).contains(x) {
                    let k = choose|k: int| 0 <= k < d.len() + 1 && d.push(s.last())[k] == x;
                    if k < d.len() {
                        assert(d[k] == x);
                    }
                }
                if d.contains(x) {
                    let k = choose|k: int| 0 <= k < d.len() && d[k] == x;
                    assert(d.push(s.last())[k] == x);
                }
                if x == s.last() {
                    assert(d.push(s.last())[d.len() as int] == x);
                }
            }
            assert forall|i: int, j: int|
                0 <= i < j < d.push(s.last()).len() implies d.push(s.last())[i] != d.push(
                s.last(),
            )[j] by {
                if j == d.len() {
                    assert(d.contains(d[i]));
                }
            }
            assert forall|x: Seq<char>| #[trigger] dedupe_spec(s).contains(x) <==> s.contains(x) by {
                assert(d.contains(x) <==> init.contains(x));
            }
        }
    }
}

fn contains_string(v: &Vec<String>, s: &str) -> (r: bool)
    ensures
        r == strings_view(v@).contains(s@),
{
    let mut i: usize = 0;
    while i < v.len()
        invariant
            i <= v@.len(),
            forall|k: int| 0 <= k < i ==> v@[k]@ != s@,
        decreases v@.len() - i,
    {
        if str_eq(v[i].as_str(), s) {
            assert(strings_view(v@)[i as int] == s@);
            return true;
        }
        i = i + 1;
    }
    proof {
        if strings_view(v@).contains(s@) {
            let k = choose|k: int| 0 <= k < strings_view(v@).len() && strings_view(v@)[k] == s@;
            assert(v@[k]@ == s@);
        }
    }
    false
}

fn dedupe(candidates: Vec<String>) -> (r: Vec<String>)
    ensures
        strings_view(r@) == dedupe_spec(strings_view(candidates@)),
{
    let ghost all = strings_view(candidates@);
    let mut out: Vec<String> = Vec::new();
    let mut i: usize = 0;
    while i < candidates.len()
        invariant
            i <= candidates@.len(),
            all == strings_view(candidates@),
            strings_view(out@) == dedupe_spec(all.take(i as int)),
        decreases candidates@.len() - i,
    {
        let c = &candidates[i];
        proof {
            lemma_dedupe(all.take(i as int));
            assert(all.take(i as int + 1).drop_last() =~= all.take(i as int));
            assert(all.take(i as int + 1).last() == c@);
        }
        if !contains_string(&out, c.as_str()) {
            out.push(c.clone());
            assert(strings_view(out@) =~= dedupe_spec(all.take(i as int)).push(c@));
        }
        i = i + 1;
    }
    assert(all.take(candidates@.len() as int) =~= all);
    out
}

fn push_strings(out: &mut Vec<String>, items: &Vec<String>)
    ensures
        strings_view(final(out)@) == strings_view(old(out)@) + strings_view(items@),
{
    let ghost start = strings_view(out@);
    let mut i: usize = 0;
    while i < items.len()
        invariant
            i <= items@.len(),
            strings_view(out@) == start + strings_view(items@).take(i as int),
        decreases items@.len() - i,
    {
        let ghost prev = out@;
        out.push(items[i].clone());
        assert(strings_view(out@) =~= strings_view(prev).push(items@[i as int]@));
        assert(strings_view(items@).take(i as int + 1) =~= strings_view(items@).take(
            i as int,
        ).push(items@[i as int]@));
        i = i + 1;
    }
    assert(strings_view(items@).take(items@.len() as int) =~= strings_view(items@));
}

fn icon_candidates(entity: &EntityMetadata) -> (r: Vec<String>)
    ensures
        strings_view(r@) == icon_candidates_spec(entity@),
{
    let mut out: Vec<String> = Vec::new();
    match &entity.icon.domain {
        Some(d) => {
            out.push(d.clone());
        },
        None => {},
    }
    assert(strings_view(out@) =~= match entity@.2.0 {
        Some(d) => seq![d],
        None => Seq::<Seq<char>>::empty(),
    });
    push_strings(&mut out, &entity.icon.fallback_domains);
    assert(strings_view(out@) =~= icon_candidates_spec(entity@));
    out
}

/// Icon host names to try for an application, in order: its own, then its
/// organization's, each once.
pub fn application_candidates(
    application: &EntityMetadata,
    organization: Option<&EntityMetadata>,
) -> (r: Vec<String>)
    ensures
        strings_view(r@) == dedupe_spec(
            icon_candidates_spec(application@) + match organization {
                Some(o) => icon_candidates_spec(o@),
                None => seq![],
            },
        ),
{
    let mut candidates = icon_candidates(application);
    let ghost first = strings_view(candidates@);
    match organization {
        Some(o) => {
            let more = icon_candidates(o);
            push_strings(&mut candidates, &more);
        },
        None => {
            assert(first + seq![] =~= first);
        },
    }
    dedupe(candidates)
}

/// Icon host names to try for an organization, each once.
pub fn organization_candidates(organization: &EntityMetadata) -> (r: Vec<String>)
    ensures
        strings_view(r@) == dedupe_spec(icon_candidates_spec(organization@)),
{
    dedupe(icon_candidates(organization))
}

/// `s` cut at every `.`, as `str::split('.')` cuts it (an empty string gives
/// one empty piece).
pub open spec fn split_dots(s: Seq<char>) -> Seq<Seq<char>>
    decreases s.len(),
{
    if s.len() == 0 {
        seq![Seq::empty()]
    } else {
        let init = split_dots(s.drop_last());
        if s.last() == '.' {
            init.push(Seq::empty())
        } else {
            init.update(init.len() - 1, init.last().push(s.last()))
        }
    }
}

pub proof fn lemma_split_dots_nonempty(s: Seq<char>)
    ensures
        split_dots(s).len() >= 1,
    decreases s.len(),
{
    if s.len() > 0 {
        lemma_split_dots_nonempty(s.drop_last());
    }
}

pub open spec fn is_label_char(c: char) -> bool {
    ('a' <= c && c <= 'z') || ('0' <= c && c <= '9') || c == '-'
}

/// A DNS label as icon host names may have it: 1 to 63 lower-case letters,
/// digits or hyphens, not starting or ending with a hyphen.
pub open spec fn label_ok(l: Seq<char>) -> bool {
    &&& 0 < l.len() <= 63
    &&& l[0] != '-'
    &&& l.last() != '-'
    &&& forall|i: int| 0 <= i < l.len() ==> is_label_char(#[trigger] l[i])
}

pub open spec fn is_digit(c: char) -> bool {
    '0' <= c && c <= '9'
}

/// Numeric value of a string of decimal digits.
pub open spec fn digits_value(l: Seq<char>) -> nat
    decreases l.len(),
{
    if l.len() == 0 {
        0
    } else {
        digits_value(l.drop_last()) * 10 + (l.last() as nat - 48) as nat
    }
}

/// An IPv4 octet in dotted-decimal text: one to three digits, no leading
/// zero, at most 255.
pub open spec fn is_octet_text(l: Seq<char>) -> bool {
    &&& 1 <= l.len() <= 3
    &&& forall|i: int| 0 <= i < l.len() ==> is_digit(#[trigger] l[i])
    &&& (l.len() == 1 || l[0] != '0')
    &&& digits_value(l) <= 255
}

/// Dotted-decimal IPv4 text: the only text without a `:` that parses as an
/// IP address.
pub open spec fn is_ipv4_text(s: Seq<char>) -> bool {
    let parts = split_dots(s);
    parts.len() == 4 && forall|i: int| 0 <= i < 4 ==> is_octet_text(#[trigger] parts[i])
}

/// Whether a host name may be used to look up an icon: a non-empty host name
/// of at most 253 characters, with a dot, no `/`, `:` or `*`, not an IP
/// address, and made of valid labels.
pub open spec fn valid_icon_hostname_spec(h: Seq<char>) -> bool {
    &&& 0 < h.len() <= 253
    &&& h.contains('.')
    &&& !h.contains('/')
    &&& !h.contains(':')
    &&& !h.contains('*')
    &&& !is_ipv4_text(h)
    &&& forall|i: int| 0 <= i < split_dots(h).len() ==> label_ok(#[trigger] split_dots(h)[i])
}

pub open spec fn chars_views(v: Seq<Vec<char>>) -> Seq<Seq<char>> {
    v.map_values(|x: Vec<char>| x@)
}

fn split_on_dots(s: &[char]) -> (r: Vec<Vec<char>>)
    ensures
        chars_views(r@) == split_dots(s@),
{
    let mut parts: Vec<Vec<char>> = Vec::new();
    parts.push(Vec::new());
    assert(chars_views(parts@) =~= split_dots(s@.take(0)));
    let mut i: usize = 0;
    while i < s.len()
        invariant
            i <= s@.len(),
            parts@.len() >= 1,
            chars_views(parts@) == split_dots(s@.take(i as int)),
        decreases s@.len() - i,
    {
        let c = s[i];
        assert(s@.take(i as int + 1).drop_last() =~= s@.take(i as int));
        assert(s@.take(i as int + 1).last() == c);
        if c == '.' {
            parts.push(Vec::new());
            assert(chars_views(parts@) =~= split_dots(s@.take(i as int + 1)));
        } else {
            let last = parts.len() - 1;
            let ghost before = parts@;
            let mut piece = parts.pop().unwrap();
            piece.push(c);
            parts.push(piece);
            assert(chars_views(parts@) =~= chars_views(before).update(
                last as int,
                chars_views(before).last().push(c),
            ));
        }
        i = i + 1;
    }
    assert(s@.take(s@.len() as int) =~= s@);
    parts
}

fn label_ok_exec(l: &Vec<char>) -> (r: bool)
    ensures
        r == label_ok(l@),
{
    if l.len() == 0 || l.len() > 63 || l[0] == '-' || l[l.len() - 1] == '-' {
        return false;
    }
    let mut i: usize = 0;
    while i < l.len()
        invariant
            i <= l@.len(),
            forall|k: int| 0 <= k < i ==> is_label_char(#[trigger] l@[k]),
        decreases l@.len() - i,
    {
        let c = l[i];
        if !(('a' <= c && c <= 'z') || ('0' <= c && c <= '9') || c == '-') {
            return false;
        }
        i = i + 1;
    }
    true
}

fn octet_text_exec(l: &Vec<char>) -> (r: bool)
    ensures
        r == is_octet_text(l@),
{
    if l.len() == 0 || l.len() > 3 {
        return false;
    }
    let mut value: u32 = 0;
    let mut i: usize = 0;
    while i < l.len()
        invariant
            i <= l@.len() <= 3,
            forall|k: int| 0 <= k < i ==> is_digit(#[trigger] l@[k]),
            value == digits_value(l@.take(i as int)),
            i == 0 ==> value == 0,
            i <= 1 ==> value < 10,
            i <= 2 ==> value < 100,
            value < 1000,
        decreases l@.len() - i,
    {
        let c = l[i];
        if !('0' <= c && c <= '9') {
            return false;
        }
        assert(l@.take(i as int + 1).drop_last() =~= l@.take(i as int));
        value = value * 10 + (c as u32 - 48);
        i = i + 1;
    }
    assert(l@.take(l@.len() as int) =~= l@);
    (l.len() == 1 || l[0] != '0') && value <= 255
}

fn contains_char(s: &[char], c: char) -> (r: bool)
    ensures
        r == s@.contains(c),
{
    let mut i: usize = 0;
    while i < s.len()
        invariant
            i <= s@.len(),
            forall|k: int| 0 <= k < i ==> s@[k] != c,
        decreases s@.len() - i,
    {
        if s[i] == c {
            assert(s@[i as int] == c);
            return true;
        }
        i = i + 1;
    }
    false
}

/// Whether a host name may be used to look up an icon.
pub fn valid_icon_hostname_for_metadata(hostname: &str) -> (r: bool)
    ensures
        r == valid_icon_hostname_spec(hostname@),
{
    let h = crate::text::chars_of(hostname);
    if h.len() == 0 || h.len() > 253 {
        return false;
    }
    if !contains_char(h.as_slice(), '.') || contains_char(h.as_slice(), '/') || contains_char(
        h.as_slice(),
        ':',
    ) || contains_char(h.as_slice(), '*') {
        return false;
    }
    let parts = split_on_dots(h.as_slice());
    let ghost pv = chars_views(parts@);
    assert(pv == split_dots(h@));
    let mut ipv4 = parts.len() == 4;
    if ipv4 {
        let mut k: usize = 0;
        while k < 4
            invariant
                k <= 4,
                parts@.len() == 4,
                pv == chars_views(parts@),
                ipv4 == forall|j: int| 0 <= j < k ==> is_octet_text(#[trigger] pv[j]),
            decreases 4 - k,
        {
            let ok = octet_text_exec(&parts[k]);
            assert(pv[k as int] == parts@[k as int]@);
            proof {
                if !ok {
                    assert(!is_octet_text(pv[k as int]));
                }
            }
            ipv4 = ipv4 && ok;
            k = k + 1;
        }
    }
    assert(ipv4 == is_ipv4_text(h@));
    if ipv4 {
        return false;
    }
    let mut i: usize = 0;
    while i < parts.len()
        invariant
            i <= parts@.len(),
            pv == chars_views(parts@),
            pv == split_dots(h@),
            h@ == hostname@,
            forall|j: int| 0 <= j < i ==> label_ok(#[trigger] pv[j]),
        decreases parts@.len() - i,
    {
        assert(pv[i as int] == parts@[i as int]@);
        if !label_ok_exec(&parts[i]) {
            return false;
        }
        i = i + 1;
    }
    true
}

/// `s` without trailing dots.
pub open spec fn strip_trailing_dots(s: Seq<char>) -> Seq<char>
    decreases s.len(),
{
    if s.len() > 0 && s.last() == '.' {
        strip_trailing_dots(s.drop_last())
    } else {
        s
    }
}

/// A host name as the icon route reads it: trimmed, without trailing dots,
/// in ASCII lower case.
pub fn normalize_icon_hostname(hostname: &str) -> (r: String)
    ensures
        r@ == crate::text::lower_seq(strip_trailing_dots(crate::text::trim_seq(hostname@))),
{
    let chars = crate::text::chars_of(hostname);
    let t = crate::text::trim_chars(chars.as_slice());
    let mut end: usize = t.len();
    assert(t@.take(t@.len() as int) =~= t@);
    while end > 0 && t[end - 1] == '.'
        invariant
            end <= t@.len(),
            strip_trailing_dots(t@) == strip_trailing_dots(t@.take(end as int)),
        decreases end,
    {
        assert(t@.take(end as int).drop_last() =~= t@.take(end as int - 1));
        end = end - 1;
    }
    assert(t@.take(t@.len() as int) =~= t@);
    let kept = crate::text::slice_range(t.as_slice(), 0, end);
    assert(kept@ =~= t@.take(end as int));
    let lowered = crate::text::lower_chars(kept.as_slice());
    crate::text::string_from_chars(lowered.as_slice())
}

/// Text form of a transport protocol number: `tcp`, `udp`, or the number.
pub open spec fn flow_protocol_spec(protocol: u32) -> Seq<char> {
    if protocol == 6 {
        "tcp"@
    } else if protocol == 17 {
        "udp"@
    } else {
        crate::text::decimal(protocol as nat)
    }
}

/// Text form of a transport protocol number.
pub fn flow_protocol(protocol: u32) -> (r: String)
    ensures
        r@ == flow_protocol_spec(protocol),
{
    if protocol == 6 {
        "tcp".to_owned()
    } else if protocol == 17 {
        "udp".to_owned()
    } else {
        let mut digits: Vec<char> = Vec::new();
        crate::text::push_decimal(&mut digits, protocol as u64);
        assert(digits@ =~= crate::text::decimal(protocol as nat));
        crate::text::string_from_chars(digits.as_slice())
    }
}

/// Lower-case hexadecimal text of a byte string, as sent for a favicon digest.
pub fn hex_digest(bytes: &[u8]) -> (r: String)
    ensures
        r@ == crate::text::hex_bytes(bytes@),
{
    let digits = crate::text::hex_encode(bytes);
    crate::text::string_from_chars(digits.as_slice())
}

/// Connection state of the separately run classifier service.
#[derive(Clone, Copy, Debug, PartialEq, Eq, Structural)]
pub enum Availability {
    Unavailable,
    Connecting,
    Ready,
}

impl Availability {
    pub open spec fn name(self) -> Seq<char> {
        match self {
            Availability::Unavailable => "unavailable"@,
            Availability::Connecting => "connecting"@,
            Availability::Ready => "ready"@,
        }
    }

    /// The state's name as diagnostics report it.
    pub fn as_str(self) -> (r: &'static str)
        ensures
            r@ == self.name(),
    {
        match self {
            Availability::Unavailable => "unavailable",
            Availability::Connecting => "connecting",
            Availability::Ready => "ready",
        }
    }
}

/// Delay before the first reconnection attempt, in milliseconds.
pub const INITIAL_RETRY_DELAY_MS: u64 = 1000;

/// Longest delay between reconnection attempts, in milliseconds.
pub const MAX_RETRY_DELAY_MS: u64 = 30_000;

/// Error a request gets while the circuit is open.
pub const CIRCUIT_OPEN_ERROR: &'static str = "classifier unavailable (reconnect scheduled)";

/// Circuit breaker in front of the classifier service. Times are read from a
/// monotonic clock, in milliseconds.
#[derive(Clone, Debug)]
pub struct AvailabilityState {
    pub state: Availability,
    pub next_probe_ms: u64,
    pub failure_delay_ms: u64,
    pub last_error: Option<String>,
}

impl AvailabilityState {
    /// The retry delay stays between one and thirty seconds.
    pub open spec fn well_formed(&self) -> bool {
        INITIAL_RETRY_DELAY_MS <= self.failure_delay_ms <= MAX_RETRY_DELAY_MS
    }

    /// A closed circuit that has never connected: the first request may try
    /// at once.
    pub fn new(now_ms: u64) -> (s: Self)
        ensures
            s.well_formed(),
            s.state == Availability::Unavailable,
            s.next_probe_ms == now_ms,
            s.failure_delay_ms == INITIAL_RETRY_DELAY_MS,
            s.last_error is None,
    {
        AvailabilityState {
            state: Availability::Unavailable,
            next_probe_ms: now_ms,
            failure_delay_ms: INITIAL_RETRY_DELAY_MS,
            last_error: None,
        }
    }

    /// Whether a request may go to the service now. A ready service takes
    /// it; an unavailable one takes one probe once its retry time has come,
    /// and is then connecting; otherwise the request is refused.
    pub fn begin_request(&mut self, now_ms: u64) -> (r: Result<(), String>)
        ensures
            old(self).state == Availability::Ready ==> r is Ok && *final(self) == *old(self),
            old(self).state == Availability::Unavailable && now_ms >= old(self).next_probe_ms ==> {
                &&& r is Ok
                &&& final(self).state == Availability::Connecting
                &&& final(self).next_probe_ms == old(self).next_probe_ms
                &&& final(self).failure_delay_ms == old(self).failure_delay_ms
                &&& final(self).last_error == old(self).last_error
            },
            (old(self).state == Availability::Connecting || (old(self).state
                == Availability::Unavailable && now_ms < old(self).next_probe_ms)) ==> {
                &&& r matches Err(e) && e@ == CIRCUIT_OPEN_ERROR@
                &&& *final(self) == *old(self)
            },
    {
        if self.state == Availability::Ready {
            return Ok(());
        }
        if self.state == Availability::Unavailable && now_ms >= self.next_probe_ms {
            self.state = Availability::Connecting;
            return Ok(());
        }
        Err(CIRCUIT_OPEN_ERROR.to_owned())
    }

    /// A request succeeded: the service is ready and the retry delay starts
    /// over.
    pub fn mark_ready(&mut self)
        ensures
            final(self).state == Availability::Ready,
            final(self).failure_delay_ms == INITIAL_RETRY_DELAY_MS,
            final(self).last_error is None,
            final(self).next_probe_ms == old(self).next_probe_ms,
            final(self).well_formed(),
    {
        self.state = Availability::Ready;
        self.failure_delay_ms = INITIAL_RETRY_DELAY_MS;
        self.last_error = None;
    }

    /// A request failed: the circuit opens, the next probe waits the current
    /// delay, and the delay doubles up to thirty seconds.
    pub fn mark_unavailable(&mut self, error: &str, now_ms: u64)
        requires
            old(self).well_formed(),
        ensures
            final(self).state == Availability::Unavailable,
            final(self).next_probe_ms == if now_ms + old(self).failure_delay_ms <= u64::MAX {
                now_ms + old(self).failure_delay_ms
            } else {
                u64::MAX as int
            },
            final(self).failure_delay_ms == if 2 * old(self).failure_delay_ms
                <= MAX_RETRY_DELAY_MS {
                2 * old(self).failure_delay_ms
            } else {
                MAX_RETRY_DELAY_MS as int
            },
            opt_string_view(final(self).last_error) == Some(error@),
            final(self).well_formed(),
    {
        let delay = self.failure_delay_ms;
        self.state = Availability::Unavailable;
        self.next_probe_ms = now_ms.saturating_add(delay);
        let doubled = delay * 2;
        self.failure_delay_ms = if doubled <= MAX_RETRY_DELAY_MS {
            doubled
        } else {
            MAX_RETRY_DELAY_MS
        };
        self.last_error = Some(error.to_owned());
    }

    /// Settles a request that `begin_request` let through, with what the
    /// service answered: success marks the service ready and hands the
    /// answer on; failure opens the circuit with the error's text and hands
    /// the error on.
    pub fn finish_request<T>(&mut self, outcome: Result<T, String>, now_ms: u64) -> (r: Result<T, String>)
        requires
            old(self).well_formed(),
        ensures
            r == outcome,
            final(self).well_formed(),
            outcome is Ok ==> {
                &&& final(self).state == Availability::Ready
                &&& final(self).failure_delay_ms == INITIAL_RETRY_DELAY_MS
                &&& final(self).last_error is None
                &&& final(self).next_probe_ms == old(self).next_probe_ms
            },
            outcome matches Err(e) ==> {
                &&& final(self).state == Availability::Unavailable
                &&& final(self).next_probe_ms == if now_ms + old(self).failure_delay_ms <= u64::MAX {
                    now_ms + old(self).failure_delay_ms
                } else {
                    u64::MAX as int
                }
                &&& final(self).failure_delay_ms == if 2 * old(self).failure_delay_ms
                    <= MAX_RETRY_DELAY_MS {
                    2 * old(self).failure_delay_ms
                } else {
                    MAX_RETRY_DELAY_MS as int
                }
                &&& opt_string_view(final(self).last_error) == Some(e@)
            },
    {
        match outcome {
            Ok(v) => {
                self.mark_ready();
                Ok(v)
            },
            Err(e) => {
                self.mark_unavailable(e.as_str(), now_ms);
                Err(e)
            },
        }
    }

    /// Name of the current state.
    pub fn availability(&self) -> (r: &'static str)
        ensures
            r@ == self.state.name(),
    {
        self.state.as_str()
    }

    /// The most recent failure, if the service has not answered since.
    pub fn last_error(&self) -> (r: Option<String>)
        ensures
            opt_string_view(r) == opt_string_view(self.last_error),
    {
        clone_opt_string(&self.last_error)
    }
}

/// Retry delay after `n` failures in a row: one second, doubled per
/// failure, at most thirty seconds.
pub open spec fn retry_delay_after(n: nat) -> int
    decreases n,
{
    if n == 0 {
        INITIAL_RETRY_DELAY_MS as int
    } else {
        let d = retry_delay_after((n - 1) as nat);
        if 2 * d <= MAX_RETRY_DELAY_MS {
            2 * d
        } else {
            MAX_RETRY_DELAY_MS as int
        }
    }
}

/// Law: the retry delay never leaves the one-to-thirty-second range, and
/// each failure after the first waits at least as long as the one before.
pub proof fn lemma_retry_delay_bounds(n: nat)
    ensures
        INITIAL_RETRY_DELAY_MS <= retry_delay_after(n) <= MAX_RETRY_DELAY_MS,
        retry_delay_after(n) <= retry_delay_after(n + 1),
    decreases n,
{
    if n > 0 {
        lemma_retry_delay_bounds((n - 1) as nat);
    }
}

/// Law: a state that has failed `n` times in a row since it was last ready
/// (or created) and fails once more holds the delay for `n + 1` failures,
/// and schedules its next probe the previous delay later.
pub proof fn lemma_failure_schedule(
    before: AvailabilityState,
    after: AvailabilityState,
    n: nat,
    now_ms: u64,
)
    requires
        before.failure_delay_ms == retry_delay_after(n),
        after.state == Availability::Unavailable,
        after.failure_delay_ms == if 2 * before.failure_delay_ms <= MAX_RETRY_DELAY_MS {
            2 * before.failure_delay_ms
        } else {
            MAX_RETRY_DELAY_MS as int
        },
        after.next_probe_ms == now_ms + before.failure_delay_ms,
    ensures
        after.failure_delay_ms == retry_delay_after(n + 1),
        after.well_formed(),
        now_ms + INITIAL_RETRY_DELAY_MS <= after.next_probe_ms <= now_ms + MAX_RETRY_DELAY_MS,
{
    lemma_retry_delay_bounds(n);
    lemma_retry_delay_bounds(n + 1);
}


/// How one step of the circuit may change its retry delay, as
/// `begin_request`, `mark_ready` and `mark_unavailable` state it: kept,
/// reset to one second, or doubled up to thirty seconds.
pub open spec fn delay_step(before: AvailabilityState, after: AvailabilityState) -> bool {
    ||| after.failure_delay_ms == before.failure_delay_ms
    ||| after.failure_delay_ms == INITIAL_RETRY_DELAY_MS
    ||| after.failure_delay_ms == (if 2 * before.failure_delay_ms <= MAX_RETRY_DELAY_MS {
        2 * before.failure_delay_ms
    } else {
        MAX_RETRY_DELAY_MS as int
    })
}

/// Law: over any sequence of steps from a well-formed state (as `new`
/// gives), the retry delay stays between one and thirty seconds.
pub proof fn lemma_delay_bounded_over_steps(states: Seq<AvailabilityState>)
    requires
        states.len() > 0,
        states[0].well_formed(),
        forall|i: int| 0 <= i < states.len() - 1 ==> #[trigger] delay_step(states[i], states[i + 1]),
    ensures
        forall|i: int| 0 <= i < states.len() ==> (#[trigger] states[i]).well_formed(),
    decreases states.len(),
{
    if states.len() > 1 {
        let prefix = states.drop_last();
        assert forall|i: int| 0 <= i < prefix.len() - 1 implies #[trigger] delay_step(prefix[i], prefix[i + 1]) by {
            assert(delay_step(states[i], states[i + 1]));
        }
        lemma_delay_bounded_over_steps(prefix);
        let k = states.len() - 2;
        assert(prefix[k].well_formed());
        assert(delay_step(states[k], states[k + 1]));
        assert forall|i: int| 0 <= i < states.len() implies (#[trigger] states[i]).well_formed() by {
            if i < prefix.len() {
                assert(prefix[i] == states[i]);
            }
        }
    }
}


/// Law: every built-in application that names its organization has a
/// built-in row, and so does that organization.
#[verifier::rlimit(50)]
pub proof fn lemma_application_organizations_have_rows(id: Seq<char>)
    ensures
        application_organization(id) matches Some(org) ==> metadata_row(EntityKind::Application, id) is Some
            && metadata_row(EntityKind::Organization, org) is Some,
{
    reveal_strlit("youtube");
    reveal_strlit("google-dns");
    reveal_strlit("netflix");
    reveal_strlit("bilibili");
    reveal_strlit("github");
    reveal_strlit("openai");
    reveal_strlit("steam");
    reveal_strlit("playstation-network");
    reveal_strlit("nintendo-eshop");
    reveal_strlit("spotify");
    reveal_strlit("apple-music");
    reveal_strlit("icloud");
    reveal_strlit("slack");
    reveal_strlit("discord");
    reveal_strlit("wechat");
    reveal_strlit("telegram");
    reveal_strlit("reddit");
    reveal_strlit("microsoft-365");
    reveal_strlit("notion");
    reveal_strlit("amazon-prime-video");
    reveal_strlit("twitch");
    reveal_strlit("docker-hub");
    reveal_strlit("wikipedia");
    reveal_strlit("cloudflare-dns");
    reveal_strlit("cloudflare-backup");
    reveal_strlit("synology-dsm");
    reveal_strlit("aqara-cloud");
    reveal_strlit("xiaohongshu");
    reveal_strlit("playstation");
    reveal_strlit("nintendo");
    reveal_strlit("microsoft");
    reveal_strlit("primevideo");
    reveal_strlit("docker");
    reveal_strlit("cloudflare");
    reveal_strlit("google");
    reveal_strlit("ntp");
    reveal_strlit("aqara");
    reveal_strlit("nas-smb");
    reveal_strlit("plex");
    reveal_strlit("synology");
    reveal_strlit("speedtest");
    reveal_strlit("tiktok");
    reveal_strlit("twitter");
    reveal_strlit("x");
    reveal_strlit("facebook");
    reveal_strlit("instagram");
    reveal_strlit("zoom");
    reveal_strlit("whatsapp");
    reveal_strlit("apple");
    reveal_strlit("amazon");
    reveal_strlit("meta");
    reveal_strlit("valve");
    reveal_strlit("sony");
    reveal_strlit("salesforce");
    reveal_strlit("tencent");
    reveal_strlit("wikimedia");
    reveal_strlit("lumi");
    reveal_strlit("xingyin");
}

} // verus!
