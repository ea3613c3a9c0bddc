//! Writing the input of the simulator for one loadout: the list of its
//! items, and the files that the simulator reads and writes.

use vstd::prelude::*;
use crate::configuration::ReplacedEnchantment;
use crate::simcraft::item::{views, Item, ItemData};
use crate::simcraft::slot::{name_of, pool_of, ESlot, Slot};
use crate::simcraft::Simcraft;
use crate::template::{compiled, with_value, Template, TemplateData};
use crate::text::{
    chars_of, decimal, decimal_of, joined, last_of, replace, replaced, rfind, slice, str_eq,
    string_of,
};

verus! {

/// What the simulator is to do for one loadout.
pub struct Job {
    /// The number of the loadout, counted from one.
    pub parse_counter: u64,
    /// Where the simulator writes its account of the result.
    pub report_html: String,
    /// Where the simulator writes the result.
    pub report_json: String,
    /// Where the input of the simulator goes.
    pub process_tpl: String,
    /// The input of the simulator.
    pub script: String,
    /// Where what the simulator prints goes.
    pub stdout: String,
    /// Where what the simulator complains of goes.
    pub stderr: String,
}

/// Where a slot stands first among the forced enchantments, or their
/// number where it does not stand among them. A place of a paired slot is
/// looked for under the name of the pair.
pub open spec fn enchantment_at(forced: Seq<ReplacedEnchantment>, slot: ESlot) -> int
    decreases forced.len(),
{
    if forced.len() == 0 {
        0
    } else if forced.first().slot@ == name_of(pool_of(slot)) {
        0
    } else {
        1 + enchantment_at(forced.drop_first(), slot)
    }
}

/// The enchantment that goes on an item: the one that is forced onto its
/// slot, or else its own, if it has one.
pub open spec fn enchantment_of(forced: Seq<ReplacedEnchantment>, item: ItemData) -> Option<u32> {
    let at = enchantment_at(forced, item.slot);
    if at < forced.len() {
        Some(forced[at].id)
    } else if item.enchant_id != 0 {
        Some(item.enchant_id)
    } else {
        None
    }
}

/// What is said of a text where there is one: the key, the text.
pub open spec fn said(key: Seq<char>, value: Seq<char>) -> Seq<char> {
    if value.len() == 0 {
        Seq::empty()
    } else {
        key + value
    }
}

/// What is said of a number where it is not zero: the key, the number.
pub open spec fn counted(key: Seq<char>, value: u32) -> Seq<char> {
    if value == 0 {
        Seq::empty()
    } else {
        key + decimal(value as nat)
    }
}

/// The line that tells the simulator of an item.
pub open spec fn item_line(forced: Seq<ReplacedEnchantment>, item: ItemData) -> Seq<char> {
    item.slot_name + "=,id="@ + decimal(item.id as nat) + said(",gem_id="@, item.gem_id) + said(
        ",relic_id="@,
        item.relic_id,
    ) + said(",bonus_id="@, item.bonus_id) + (match enchantment_of(forced, item) {
        Some(id) => ",enchant_id="@ + decimal(id as nat),
        None => Seq::empty(),
    }) + counted(",azerite_level="@, item.azerite_level) + said(
        ",azerite_powers="@,
        item.azerite_power,
    ) + seq!['\n']
}

/// The lines that tell the simulator of the items of a loadout.
pub open spec fn item_list(forced: Seq<ReplacedEnchantment>, stack: Seq<ItemData>) -> Seq<char>
    decreases stack.len(),
{
    if stack.len() == 0 {
        Seq::empty()
    } else {
        item_list(forced, stack.drop_last()) + item_line(forced, stack.last())
    }
}

/// The name of a file for the loadout of the given number: the pattern
/// with every `{}` replaced by the number.
pub open spec fn numbered(pattern: Seq<char>, number: u64) -> Seq<char> {
    replaced(pattern, "{}"@, decimal(number as nat))
}

/// A path without its last part: what stands before the last slash, or
/// the whole path where it has no slash.
pub open spec fn path_of(path: Seq<char>) -> Seq<char> {
    match last_of(path, '/') {
        Some(at) => path.take(at),
        None => path,
    }
}

/// The template after a value was filled in, where `wanted` says so.
pub open spec fn with_value_if(wanted: bool, template: TemplateData, name: Seq<char>, value: Seq<char>) -> TemplateData {
    if wanted {
        with_value(template, name, value)
    } else {
        template
    }
}

fn append(text: &mut Vec<char>, more: &str)
    ensures
        final(text)@ == old(text)@ + more@,
{
    let both = joined(text, &chars_of(more));
    *text = both;
}

fn append_said(text: &mut Vec<char>, key: &str, value: &str)
    ensures
        final(text)@ == old(text)@ + said(key@, value@),
{
    if value.unicode_len() != 0 {
        append(text, key);
        append(text, value);
        proof {
            assert(text@ =~= old(text)@ + (key@ + value@));
        }
    } else {
        proof {
            assert(text@ =~= old(text)@ + Seq::<char>::empty());
        }
    }
}

fn append_number(text: &mut Vec<char>, number: u64)
    ensures
        final(text)@ == old(text)@ + decimal(number as nat),
{
    let both = joined(text, &decimal_of(number));
    *text = both;
}

impl Simcraft {
    /// A path without its last part.
    pub fn extract_path(path: &str) -> (dir: String)
        ensures
            dir@ == path_of(path@),
    {
        let text = chars_of(path);
        match rfind(&text, '/') {
            Some(p) => {
                let part = slice(&text, 0, p);
                proof {
                    assert(text@.subrange(0, p as int) =~= text@.take(p as int));
                }
                string_of(&part)
            },
            None => String::from_str(path),
        }
    }

    /// The enchantment that is forced onto a slot, if one is.
    pub fn get_replaced_enchantment(&self, slot: &Slot) -> (found: Option<ReplacedEnchantment>)
        ensures
            match found {
                Some(forced) => enchantment_at(self.settings().replaces.enchantments@, slot.slot)
                    < self.settings().replaces.enchantments@.len() && forced
                    == self.settings().replaces.enchantments@[enchantment_at(
                    self.settings().replaces.enchantments@,
                    slot.slot,
                )],
                None => enchantment_at(self.settings().replaces.enchantments@, slot.slot)
                    == self.settings().replaces.enchantments@.len(),
            },
    {
        let name = Slot::from_enum(Slot::fix_slot(&slot.slot)).name;
        let ghost all = self.config.replaces.enchantments@;
        let mut i: usize = 0;
        proof {
            assert(all.skip(0) =~= all);
        }
        while i < self.config.replaces.enchantments.len()
            invariant
                i <= all.len(),
                all == self.config.replaces.enchantments@,
                name@ == name_of(pool_of(slot.slot)),
                enchantment_at(all, slot.slot) == i + enchantment_at(all.skip(i as int), slot.slot),
            decreases all.len() - i,
        {
            proof {
                assert(all.skip(i as int).first() == all[i as int]);
                assert(all.skip(i as int).drop_first() =~= all.skip(i + 1));
            }
            if str_eq(self.config.replaces.enchantments[i].slot.as_str(), name.as_str()) {
                return Some(self.config.replaces.enchantments[i].clone());
            }
            i += 1;
        }
        proof {
            assert(all.skip(all.len() as int) =~= Seq::<ReplacedEnchantment>::empty());
        }
        None
    }

    /// The line that tells the simulator of an item.
    pub fn item_line(&self, item: &Item) -> (line: Vec<char>)
        ensures
            line@ == item_line(self.settings().replaces.enchantments@, item@),
    {
        let mut line = chars_of(item.slot.name.as_str());
        append(&mut line, "=,id=");
        append_number(&mut line, item.id as u64);
        append_said(&mut line, ",gem_id=", item.gem_id.as_str());
        append_said(&mut line, ",relic_id=", item.relic_id.as_str());
        append_said(&mut line, ",bonus_id=", item.bonus_id.as_str());
        let ghost before = line@;
        match self.get_replaced_enchantment(&item.slot) {
            Some(enchant) => {
                append(&mut line, ",enchant_id=");
                append_number(&mut line, enchant.id as u64);
                proof {
                    assert(line@ =~= before + (",enchant_id="@ + decimal(enchant.id as nat)));
                }
            },
            None => {
                if item.enchant_id != 0 {
                    append(&mut line, ",enchant_id=");
                    append_number(&mut line, item.enchant_id as u64);
                    proof {
                        assert(line@ =~= before + (",enchant_id="@ + decimal(item.enchant_id as nat)));
                    }
                } else {
                    proof {
                        assert(line@ =~= before + Seq::<char>::empty());
                    }
                }
            },
        }
        let ghost enchanted = line@;
        if item.azerite_level != 0 {
            append(&mut line, ",azerite_level=");
            append_number(&mut line, item.azerite_level as u64);
            proof {
                assert(line@ =~= enchanted + (",azerite_level="@ + decimal(item.azerite_level as nat)));
            }
        } else {
            proof {
                assert(line@ =~= enchanted + Seq::<char>::empty());
            }
        }
        append_said(&mut line, ",azerite_powers=", item.azerite_power.as_str());
        line.push('\n');
        proof {
            assert(line@ =~= item_line(self.settings().replaces.enchantments@, item@));
        }
        line
    }

    /// The lines that tell the simulator of the items of a loadout.
    pub fn item_list(&self, stack: &Vec<Item>) -> (list: Vec<char>)
        ensures
            list@ == item_list(self.settings().replaces.enchantments@, views(stack@)),
    {
        let ghost all = views(stack@);
        let ghost forced = self.settings().replaces.enchantments@;
        let mut list: Vec<char> = Vec::new();
        let mut i: usize = 0;
        while i < stack.len()
            invariant
                i <= stack@.len(),
                all == views(stack@),
                forced == self.settings().replaces.enchantments@,
                list@ == item_list(forced, all.take(i as int)),
            decreases stack@.len() - i,
        {
            proof {
                assert(all.take(i + 1).drop_last() =~= all.take(i as int));
                assert(all.take(i + 1).last() == stack@[i as int]@);
            }
            let line = self.item_line(&stack[i]);
            list = joined(&list, &line);
            i += 1;
        }
        proof {
            assert(all.take(stack@.len() as int) =~= all);
        }
        list
    }

    /// Where the template of the simulator's input lies.
    pub fn template_path(&self) -> (path: String)
        ensures
            path@ == self.settings().template_dir@ + "/"@ + self.settings().simcraft.template@,
    {
        let dir = joined(&chars_of(self.config.template_dir.as_str()), &chars_of("/"));
        string_of(&joined(&dir, &chars_of(self.config.simcraft.template.as_str())))
    }

    /// Takes the template of the simulator's input.
    pub fn set_template(&mut self, template: Template)
        ensures
            final(self).script() == template@,
            final(self).settings() == old(self).settings(),
            final(self).catalogue() == old(self).catalogue(),
            final(self).directories() == old(self).directories(),
            final(self).ranking() == old(self).ranking(),
            final(self).profile() == old(self).profile(),
    {
        self.template = template;
    }

    /// The template of the simulator's input, filled in for a loadout.
    pub open spec fn script_for(&self, stack: Seq<ItemData>, number: u64) -> TemplateData {
        let config = self.settings();
        let html = self.directories().report + "/"@ + numbered(config.simcraft.html@, number);
        let json = self.directories().report + "/"@ + numbered(config.simcraft.json@, number);
        with_value_if(
            config.simcraft.override_spec,
            with_value_if(
                config.simcraft.override_talents,
                with_value_if(
                    config.simcraft.override_spec,
                    with_value(
                        with_value(with_value(self.script(), "report_html"@, html), "report_json"@, json),
                        "item_list"@,
                        item_list(config.replaces.enchantments@, stack),
                    ),
                    "spec"@,
                    self.profile().spec,
                ),
                "talents"@,
                self.profile().talents,
            ),
            "level"@,
            decimal(self.profile().level as nat),
        )
    }

    /// Prepares the simulator's work on a loadout, the one after the
    /// `parse_counter` loadouts before it: fills the template in with the
    /// files of the reports and the list of the items, and, where the
    /// configuration says so, with the specialisation, the talents and
    /// the level; compiles it; and names the files of the work. The
    /// template keeps what was filled in.
    pub fn process_simc_file(&mut self, stack: &Vec<Item>, parse_counter: u64) -> (job: Job)
        requires
            parse_counter < u64::MAX,
        ensures
            job.parse_counter == parse_counter + 1,
            job.report_html@ == old(self).directories().report + "/"@ + numbered(
                old(self).settings().simcraft.html@,
                job.parse_counter,
            ),
            job.report_json@ == old(self).directories().report + "/"@ + numbered(
                old(self).settings().simcraft.json@,
                job.parse_counter,
            ),
            job.process_tpl@ == old(self).directories().compile + "/"@ + numbered(
                old(self).settings().simcraft.process_template@,
                job.parse_counter,
            ),
            job.stdout@ == old(self).directories().log + "/stdout_"@ + decimal(job.parse_counter as nat)
                + ".log"@,
            job.stderr@ == old(self).directories().log + "/stderr_"@ + decimal(job.parse_counter as nat)
                + ".log"@,
            final(self).script() == old(self).script_for(views(stack@), job.parse_counter),
            job.script@ == compiled(final(self).script()),
            final(self).settings() == old(self).settings(),
            final(self).catalogue() == old(self).catalogue(),
            final(self).directories() == old(self).directories(),
            final(self).ranking() == old(self).ranking(),
            final(self).profile() == old(self).profile(),
    {
        let parse_counter = parse_counter + 1;
        let number = decimal_of(parse_counter);
        let braces = chars_of("{}");
        let slash = chars_of("/");
        let report_dir = joined(&chars_of(self.report_dir.as_str()), &slash);
        let html = replace(&chars_of(self.config.simcraft.html.as_str()), &braces, &number);
        let json = replace(&chars_of(self.config.simcraft.json.as_str()), &braces, &number);
        let report_html = string_of(&joined(&report_dir, &html));
        let report_json = string_of(&joined(&report_dir, &json));
        let item_list = string_of(&self.item_list(stack));
        let _ = self.template.set_var("report_html", report_html.as_str());
        let _ = self.template.set_var("report_json", report_json.as_str());
        let _ = self.template.set_var("item_list", item_list.as_str());
        if self.template.var_exist("spec") && self.config.simcraft.override_spec {
            let _ = self.template.set_var("spec", self.spec.as_str());
        }
        if self.template.var_exist("talents") && self.config.simcraft.override_talents {
            let _ = self.template.set_var("talents", self.talents.as_str());
        }
        if self.template.var_exist("level") && self.config.simcraft.override_spec {
            let level = string_of(&decimal_of(self.level as u64));
            let _ = self.template.set_var("level", level.as_str());
        }
        let compile_dir = joined(&chars_of(self.compile_dir.as_str()), &slash);
        let process = replace(
            &chars_of(self.config.simcraft.process_template.as_str()),
            &braces,
            &number,
        );
        let process_tpl = string_of(&joined(&compile_dir, &process));
        let script = match self.template.compile() {
            Ok(script) => script,
            Err(_) => String::new(),
        };
        let log_dir = chars_of(self.log_dir.as_str());
        let log = chars_of(".log");
        let stdout = joined(&joined(&joined(&log_dir, &chars_of("/stdout_")), &number), &log);
        let stderr = joined(&joined(&joined(&log_dir, &chars_of("/stderr_")), &number), &log);
        Job {
            parse_counter,
            report_html,
            report_json,
            process_tpl,
            script,
            stdout: string_of(&stdout),
            stderr: string_of(&stderr),
        }
    }
}

} // verus!
