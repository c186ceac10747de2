use vstd::prelude::*;
use vstd::string::{StrSliceExecFns, StringExecFns};
use crate::strings::str_is_prefix;

verus! {

/// The static settings of the system, loaded once at startup: where the
/// remote server is, how to authenticate, which remote roots to watch, where
/// to mirror them, how many sessions to keep, how often to sweep their
/// health, and the suffix of the ready-marker file.
#[derive(Debug)]
pub struct Config {
    pub host: String,
    pub port: String,
    pub dirs_to_watch: Vec<String>,
    pub local_folder: String,
    pub user: String,
    pub pass: String,
    pub connections: usize,
    pub conn_healthcheck_rate_sec: u16,
    pub ready_flag_file_ext: String,
}

impl Config {
    /// Assembles a configuration from its loaded values.
    pub fn from_parts(
        host: String,
        port: String,
        dirs_to_watch: Vec<String>,
        local_folder: String,
        user: String,
        pass: String,
        connections: usize,
        conn_healthcheck_rate_sec: u16,
        ready_flag_file_ext: String,
    ) -> (r: Config)
        ensures
            r.host == host,
            r.port == port,
            r.dirs_to_watch == dirs_to_watch,
            r.local_folder == local_folder,
            r.user == user,
            r.pass == pass,
            r.connections == connections,
            r.conn_healthcheck_rate_sec == conn_healthcheck_rate_sec,
            r.ready_flag_file_ext == ready_flag_file_ext,
    {
        Config {
            host,
            port,
            dirs_to_watch,
            local_folder,
            user,
            pass,
            connections,
            conn_healthcheck_rate_sec,
            ready_flag_file_ext,
        }
    }

    /// The address to connect to: host and port joined by a colon.
    pub fn get_hostname(&self) -> (r: String)
        ensures
            r@ == self.host@ + seq![':'] + self.port@,
    {
        let mut host = self.host.clone();
        host.append(":");
        host.append(self.port.as_str());
        proof {
            reveal_strlit(":");
            assert(":"@ =~= seq![':']);
        }
        host
    }

    /// The local path a remote path under `root` is mirrored to, with the
    /// configured local folder in place of the root.
    pub fn get_download_target_path(&self, root: &str, ftp_path: &str) -> (r: String)
        ensures
            r@ == if root@.is_prefix_of(ftp_path@) {
                self.local_folder@ + ftp_path@.skip(root@.len() as int)
            } else {
                ftp_path@
            },
    {
        if str_is_prefix(root, ftp_path) {
            let mut r = self.local_folder.clone();
            let n = ftp_path.unicode_len();
            let m = root.unicode_len();
            r.append(ftp_path.substring_char(m, n));
            r
        } else {
            ftp_path.to_owned()
        }
    }

    /// The remote root folders the discovery loop watches.
    pub fn get_dirs_to_watch(&self) -> (r: Vec<String>)
        ensures
            r@ == self.dirs_to_watch@,
    {
        let r = self.dirs_to_watch.clone();
        proof {
            assert(r@ =~= self.dirs_to_watch@);
        }
        r
    }

    /// How many seconds lie between two health sweeps.
    pub fn get_healthcheck_interval(&self) -> (r: u16)
        ensures
            r == self.conn_healthcheck_rate_sec,
    {
        self.conn_healthcheck_rate_sec
    }
}

} // verus!
