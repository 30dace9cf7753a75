//! What the command line program decides.

use vstd::prelude::*;
use vstd::string::*;

verus! {

/// What the program is told on its command line.
#[derive(Debug)]
pub struct SeederArgs {
    pub torrent_path: String,
    pub cdn_url: String,
}

/// Takes the torrent file and the CDN URL from the command line, whose first word is the name
/// of the program; further words are ignored. Where there are too few, the usage is given.
pub fn parse_args(args: &Vec<String>) -> (parsed: Result<SeederArgs, String>)
    ensures
        match parsed {
            Ok(seeder) => {
                &&& args@.len() >= 3
                &&& seeder.torrent_path@ == args@[1]@
                &&& seeder.cdn_url@ == args@[2]@
            },
            Err(usage) => {
                &&& args@.len() < 3
                &&& usage@ == "Usage: cdn-seeder <torrent-file> <cdn-url>"@
            },
        },
{
    if args.len() < 3 {
        return Err(String::from_str("Usage: cdn-seeder <torrent-file> <cdn-url>"));
    }
    Ok(SeederArgs { torrent_path: args[1].clone(), cdn_url: args[2].clone() })
}

/// Whether there is anything to report: a peer, or bytes sent or received.
pub fn has_activity(uploaded: u64, downloaded: u64, peers: u64) -> (active: bool)
    ensures
        active == (peers > 0 || uploaded > 0 || downloaded > 0),
{
    peers > 0 || uploaded > 0 || downloaded > 0
}

} // verus!
