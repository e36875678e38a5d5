//! Run configuration: where the data lives and which runs to process.
//!
//! The configuration carries paths and run numbers; the path names the
//! acquisition uses are built here, while checking what actually exists on
//! disk is the caller's business.

use vstd::prelude::*;
use vstd::string::StringExecFns;

use crate::text::{spec_padded4, spec_udec, u32_to_padded4, u32_to_string};

verus! {

/// Paths and run range of one processing job.
#[derive(Debug, Clone)]
pub struct Config {
    /// Root of the GET `.graw` tree.
    pub graw_path: String,
    /// Root of the auxiliary `.evt` tree.
    pub evt_path: String,
    /// Directory the output archives go to.
    pub hdf_path: String,
    /// The pad map table.
    pub pad_map_path: String,
    pub first_run_number: i32,
    pub last_run_number: i32,
    /// Whether to read from the online layout instead of the run tree.
    pub online: bool,
    /// Experiment tag of the online layout.
    pub experiment: String,
}

impl Config {
    /// A placeholder configuration.
    pub fn default() -> (c: Self)
        ensures
            c.graw_path@ == "None"@,
            c.evt_path@ == "None"@,
            c.hdf_path@ == "None"@,
            c.pad_map_path@ == "None"@,
            c.first_run_number == 0,
            c.last_run_number == 0,
            !c.online,
            c.experiment@.len() == 0,
    {
        Config {
            graw_path: "None".to_owned(),
            evt_path: "None".to_owned(),
            hdf_path: "None".to_owned(),
            pad_map_path: "None".to_owned(),
            first_run_number: 0,
            last_run_number: 0,
            online: false,
            experiment: String::new(),
        }
    }

    /// The run's name in the acquisition's format: `run_` and the number
    /// zero-padded to four places.
    pub fn get_run_str(&self, run_number: i32) -> (r: String)
        requires
            0 <= run_number,
        ensures
            r@ == "run_"@ + spec_padded4(run_number as int),
    {
        let mut s = "run_".to_owned();
        let num = u32_to_padded4(run_number as u32);
        s.append(num.as_str());
        s
    }

    /// The directory the run's frame files live in: the graw root, the run
    /// name, and the per-controller directory.
    pub fn get_run_directory(&self, run_number: i32, cobo: &u8) -> (r: String)
        requires
            0 <= run_number,
        ensures
            r@ == self.graw_path@ + "/"@ + "run_"@ + spec_padded4(run_number as int) + "/mm"@
                + spec_udec(*cobo as int),
    {
        let mut s = self.graw_path.clone();
        s.append("/");
        let run = self.get_run_str(run_number);
        s.append(run.as_str());
        s.append("/mm");
        let c = u32_to_string(*cobo as u32);
        s.append(c.as_str());
        s
    }

    /// The per-controller directory of the online layout.
    pub fn get_online_directory(&self, run_number: i32, cobo: &u8) -> (r: String)
        requires
            0 <= run_number,
        ensures
            r@ == "/Volumes/mm"@ + spec_udec(*cobo as int) + "/"@ + self.experiment@ + "/"@
                + "run_"@ + spec_padded4(run_number as int),
    {
        let mut s = "/Volumes/mm".to_owned();
        let c = u32_to_string(*cobo as u32);
        s.append(c.as_str());
        s.append("/");
        s.append(self.experiment.as_str());
        s.append("/");
        let run = self.get_run_str(run_number);
        s.append(run.as_str());
        s
    }

    /// The directory the run's auxiliary files live in.
    pub fn get_evt_directory(&self, run_number: i32) -> (r: String)
        requires
            0 <= run_number,
        ensures
            r@ == self.evt_path@ + "/run"@ + spec_udec(run_number as int),
    {
        let mut s = self.evt_path.clone();
        s.append("/run");
        let num = u32_to_string(run_number as u32);
        s.append(num.as_str());
        s
    }

    /// The output archive's name for a run.
    pub fn get_hdf_file_name(&self, run_number: i32) -> (r: String)
        requires
            0 <= run_number,
        ensures
            r@ == self.hdf_path@ + "/"@ + "run_"@ + spec_padded4(run_number as int) + ".h5"@,
    {
        let mut s = self.hdf_path.clone();
        s.append("/");
        let run = self.get_run_str(run_number);
        s.append(run.as_str());
        s.append(".h5");
        s
    }

    /// The log file's name for a run.
    pub fn get_log_file_name(&self, run_number: i32) -> (r: String)
        requires
            0 <= run_number,
        ensures
            r@ == self.hdf_path@ + "/log_"@ + "run_"@ + spec_padded4(run_number as int) + ".txt"@,
    {
        let mut s = self.hdf_path.clone();
        s.append("/log_");
        let run = self.get_run_str(run_number);
        s.append(run.as_str());
        s.append(".txt");
        s
    }
}

} // verus!
