# sed_unlock

The decisions of a UEFI pre-boot program that unlocks Opal self-encrypting
drives and then starts the next boot stage, written in Verus with their
contracts proved.

- `src/` is the verified library:
  - `guid` reads GUID text (`xxxxxxxx-xxxx-xxxx-xxxx-xxxxxxxxxxxx`) into the
    firmware's byte layout, field by field as `from_str_radix` reads it;
  - `partition` picks the boot partition: the first EFI system partition, or
    the one whose unique GUID is configured;
  - `keymap` holds the US-QWERTY shift pairs;
  - `password` is the keystroke-by-keystroke password entry, with flagging
    of likely Shift-release phantoms, reveal (F1) and delete-flagged (F2),
    and the screen operations each keystroke calls for;
  - `keystrokes` states what whole runs of keystrokes do: the password is
    the edited text whatever the timing, F1 changes only the display, the
    hint line appears at most once, a masked screen shows only the length;
  - `screen` models the password area of the console and proves that after
    every keystroke it shows the password as it should;
  - `console` picks the text mode;
  - `unlock` derives the drive credential (PBKDF2-HMAC-SHA1), and holds the
    prompts, the reaction to a session attempt, and the checks on the
    configuration file and the image to start.
- `app/` calls the firmware (console, keyboard, timer, boot services) and
  carries out what the library decides.
- `tests/` exercises the library on concrete values.
