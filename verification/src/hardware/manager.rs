//! Registry of quantum drivers by name, with one of them active.
use vstd::prelude::*;
use vstd::string::*;
use crate::hardware::driver_api::DriverError;
use crate::text::concat;

verus! {

/// The index of the first driver registered under `name`, if any.
pub open spec fn name_index<D>(drivers: Seq<(String, D)>, name: Seq<char>) -> Option<int>
    decreases drivers.len(),
{
    if drivers.len() == 0 {
        None
    } else if drivers[0].0@ == name {
        Some(0)
    } else {
        match name_index(drivers.drop_first(), name) {
            Some(i) => Some(i + 1),
            None => None,
        }
    }
}

proof fn lemma_name_index_range<D>(drivers: Seq<(String, D)>, name: Seq<char>)
    ensures
        name_index(drivers, name) matches Some(i) ==> 0 <= i < drivers.len() && drivers[i].0@ == name,
    decreases drivers.len(),
{
    if drivers.len() > 0 && drivers[0].0@ != name {
        lemma_name_index_range(drivers.drop_first(), name);
    }
}

/// Manager of several drivers, of which one may be active.
pub struct DriverManager<D> {
    /// Registered drivers by name, in order of registration
    pub drivers: Vec<(String, D)>,
    /// Name of the active driver
    pub active_driver: Option<String>,
}

impl<D> DriverManager<D> {
    /// A manager with no drivers.
    pub fn new() -> (r: Self)
        ensures
            r.drivers@.len() == 0,
            r.active_driver is None,
    {
        DriverManager { drivers: Vec::new(), active_driver: None }
    }

    /// Where the driver named `name` stands, if registered.
    fn position(&self, name: &str) -> (r: Option<usize>)
        ensures
            match r {
                Some(i) => i < self.drivers@.len() && name_index(self.drivers@, name@) == Some(i as int),
                None => name_index(self.drivers@, name@) is None,
            },
    {
        let ghost ds = self.drivers@;
        let wanted = String::from_str(name);
        let mut i: usize = 0;
        assert(ds.subrange(0, ds.len() as int) =~= ds);
        while i < self.drivers.len()
            invariant
                i <= ds.len(),
                ds == self.drivers@,
                wanted@ == name@,
                name_index(ds, name@) == match name_index(ds.subrange(i as int, ds.len() as int), name@) {
                    Some(k) => Some(k + i),
                    None => None,
                },
            decreases ds.len() - i,
        {
            proof {
                let rest = ds.subrange(i as int, ds.len() as int);
                assert(rest[0] == ds[i as int]);
                assert(rest.drop_first() =~= ds.subrange(i + 1, ds.len() as int));
            }
            if self.drivers[i].0 == wanted {
                return Some(i);
            }
            i = i + 1;
        }
        proof {
            assert(ds.subrange(i as int, ds.len() as int) =~= Seq::<(String, D)>::empty());
        }
        None
    }

    /// Registers a driver under `name`, replacing one registered under that name.
    pub fn register_driver(&mut self, name: String, driver: D)
        ensures
            final(self).active_driver == old(self).active_driver,
            final(self).drivers@ == match name_index(old(self).drivers@, name@) {
                Some(i) => old(self).drivers@.update(i, (name, driver)),
                None => old(self).drivers@.push((name, driver)),
            },
    {
        match self.position(name.as_str()) {
            Some(i) => {
                self.drivers.set(i, (name, driver));
            },
            None => {
                self.drivers.push((name, driver));
            },
        }
    }

    /// Makes the driver named `name` the active one; an unknown name is an error.
    pub fn set_active(&mut self, name: String) -> (r: Result<(), DriverError>)
        ensures
            final(self).drivers == old(self).drivers,
            name_index(old(self).drivers@, name@) is Some ==> r is Ok && final(self).active_driver == Some(name),
            name_index(old(self).drivers@, name@) is None ==> (r matches Err(DriverError::Unknown(m)) && m@
                == "Driver '"@ + name@ + "' not found"@ && final(self).active_driver == old(self).active_driver),
    {
        match self.position(name.as_str()) {
            Some(_) => {
                self.active_driver = Some(name);
                Ok(())
            },
            None => {
                let mut m = concat("Driver '", name.as_str());
                m.append("' not found");
                proof {
                    reveal_strlit("Driver '");
                    reveal_strlit("' not found");
                }
                Err(DriverError::Unknown(m))
            },
        }
    }

    /// The driver registered under `name`.
    pub fn get_driver(&mut self, name: &str) -> (r: Option<&mut D>)
        ensures
            name_index(old(self).drivers@, name@) is None ==> r is None && final(self).drivers@ == old(self).drivers@,
            name_index(old(self).drivers@, name@) matches Some(i) ==> r matches Some(d) && *d == old(self).drivers@[i].1
                && final(self).drivers@ == old(self).drivers@.update(i, (old(self).drivers@[i].0, *final(d))),
            final(self).active_driver == old(self).active_driver,
    {
        match self.position(name) {
            Some(i) => {
                proof {
                    lemma_name_index_range(self.drivers@, name@);
                }
                Some(&mut self.drivers[i].1)
            },
            None => None,
        }
    }

    /// The active driver, if one is set and registered.
    pub fn get_active(&mut self) -> (r: Option<&mut D>)
        ensures
            final(self).active_driver == old(self).active_driver,
            match old(self).active_driver {
                None => r is None && final(self).drivers@ == old(self).drivers@,
                Some(n) => match name_index(old(self).drivers@, n@) {
                    None => r is None && final(self).drivers@ == old(self).drivers@,
                    Some(i) => r matches Some(d) && *d == old(self).drivers@[i].1 && final(self).drivers@
                        == old(self).drivers@.update(i, (old(self).drivers@[i].0, *final(d))),
                },
            },
    {
        let name = match &self.active_driver {
            Some(n) => n.clone(),
            None => {
                return None;
            },
        };
        self.get_driver(name.as_str())
    }

    /// The names of the registered drivers, in order of registration.
    pub fn list_drivers(&self) -> (r: Vec<String>)
        ensures
            r@.len() == self.drivers@.len(),
            forall|i: int| 0 <= i < r@.len() ==> (#[trigger] r@[i])@ == self.drivers@[i].0@,
    {
        let mut names: Vec<String> = Vec::new();
        let mut i: usize = 0;
        while i < self.drivers.len()
            invariant
                i <= self.drivers@.len(),
                names@.len() == i,
                forall|k: int| 0 <= k < i ==> (#[trigger] names@[k])@ == self.drivers@[k].0@,
            decreases self.drivers@.len() - i,
        {
            names.push(self.drivers[i].0.clone());
            i = i + 1;
        }
        names
    }
}

impl<D> Default for DriverManager<D> {
    fn default() -> (r: Self)
        ensures
            r.drivers@.len() == 0,
            r.active_driver is None,
    {
        Self::new()
    }
}

} // verus!
