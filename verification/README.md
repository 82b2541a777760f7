# dps_meter

Combat statistics for a damage meter: who did how much damage to what, with which skills, and
whose summon is whose.

- `src/` is the library. Every item of it is checked by Verus: what each function returns or
  changes is stated over mathematical models, and proved.
- `tests/` runs the library on concrete fights, recordings, screens and settings.
- `app/` is the desktop application around it: state behind locks, files, network and windows.

## The library

| Module | What it holds |
| --- | --- |
| `entity` | Damage events, classes, targets, players, what is shown and what is kept |
| `combat::data_storage` | The combat storage; `storage_model` is its model, `storage_laws` what holds of it |
| `combat::packet_log` | The events behind the storage |
| `combat::names` | Nicknames, and which id stands for a nickname |
| `combat::target_selection` | Which targets are shown |
| `combat::meter` | Adding up players; `meter_laws` is what holds of it |
| `combat::target_details`, `combat::overview` | One fight skill by skill, and all fights at a glance; `details_laws` is what holds of them |
| `combat::boss_fights` | Which fights are kept |
| `combat::dps_calculator` | The calculator that ties these together |
| `i18n` | Names of skills and creatures |
| `replay` | Recorded captures; `replay_laws` is what holds of their times |
| `session` | Who plays, and on what packets are captured |
| `monitors`, `geometry`, `overlay` | Screens, windows and the overlay |
| `update` | Bringing the meter up to date |

Proof functions whose names begin with `law_` state what holds of the library as a whole.

## Conventions

- Counters and times are machine integers and wrap where they leave their range.
- Tables are walked in ascending order of their keys. Where several answers would do, the one with
  the largest id is taken.
- The clock, the program's version, the contents of files and the function that makes nicknames
  unreadable are arguments.
