use vstd::prelude::*;
use vstd::string::*;

verus! {

/// Display name under which notifications are sent.
pub const USERNAME: &'static str = "RU SnipeCord";

/// Icon shown beside notifications.
pub const AVATAR: &'static str = "https://upload.wikimedia.org/wikipedia/commons/thumb/1/1c/Rifle_scope.svg/240px-Rifle_scope.svg.png";

/// Body of the message sent once at startup.
pub const READY: &'static str = "Ready for action!!";

/// The label of a section found in the catalog.
pub open spec fn section_label(title: Seq<char>, number: Seq<char>, index: Seq<char>) -> Seq<char> {
    title + " Section "@ + number + " (Index "@ + index + ")"@
}

/// The label of a watched identifier that the catalog does not list.
pub open spec fn unknown_label(index: Seq<char>) -> Seq<char> {
    "Unknown Class (Index "@ + index + ")"@
}

/// The alert for an open identifier, with the registration link.
pub open spec fn alert_text(label: Seq<char>, term: Seq<char>, year: Seq<char>, index: Seq<char>) -> Seq<char> {
    "The course "@ + label
        + " is open!!! Register with http://sims.rutgers.edu/webreg/editSchedule.htm?login=cas&semesterSelection="@
        + term + year + "&indexList="@ + index
}

/// The mention line that heads each alert: the mention and a line break, or nothing.
pub open spec fn mention_prefix(mention: Option<Seq<char>>) -> Seq<char> {
    match mention {
        Some(m) => m + "\n"@,
        None => Seq::empty(),
    }
}

/// What the notification channel receives for an alert.
pub open spec fn notification_body(mention: Option<Seq<char>>, alert: Seq<char>) -> Seq<char> {
    mention_prefix(mention) + "\n"@ + alert
}

pub fn format_section_label(title: &String, number: &String, index: &String) -> (r: String)
    ensures
        r@ == section_label(title@, number@, index@),
{
    let mut s = title.clone();
    s.append(" Section ");
    s.append(number.as_str());
    s.append(" (Index ");
    s.append(index.as_str());
    s.append(")");
    s
}

pub fn format_unknown_label(index: &String) -> (r: String)
    ensures
        r@ == unknown_label(index@),
{
    let mut s = String::from_str("Unknown Class (Index ");
    s.append(index.as_str());
    s.append(")");
    s
}

pub fn format_alert(label: &String, term: &String, year: &String, index: &String) -> (r: String)
    ensures
        r@ == alert_text(label@, term@, year@, index@),
{
    let mut s = String::from_str("The course ");
    s.append(label.as_str());
    s.append(
        " is open!!! Register with http://sims.rutgers.edu/webreg/editSchedule.htm?login=cas&semesterSelection=",
    );
    s.append(term.as_str());
    s.append(year.as_str());
    s.append("&indexList=");
    s.append(index.as_str());
    s
}

/// Turns the optional mention into the line that heads each alert.
pub fn format_mention(mention: &Option<String>) -> (r: String)
    ensures
        r@ == mention_prefix(
            match mention {
                Some(m) => Some(m@),
                None => None,
            },
        ),
{
    match mention {
        Some(m) => {
            let mut s = m.clone();
            s.append("\n");
            s
        },
        None => String::new(),
    }
}

/// Puts the mention line before an alert.
pub fn format_notification(prefix: &String, alert: &String) -> (r: String)
    ensures
        r@ == prefix@ + "\n"@ + alert@,
{
    let mut s = prefix.clone();
    s.append("\n");
    s.append(alert.as_str());
    s
}

} // verus!
